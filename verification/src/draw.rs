use vstd::prelude::*;
use vstd::arithmetic::power2::{pow2, lemma_pow2_unfold, lemma2_to64};

verus! {

/// The divisor that scales a draw to [0, 1): 2^31 - 2.
pub const DRAW_SPAN: u128 = 2147483646;

/// 2^53: a double holds integers below this exactly.
pub const EXACT: u128 = 9007199254740992;

/// 2^52 * `DRAW_SPAN`: a draw quotient at least this large has its 53 leading
/// bits in the integer part.
pub const LOW_SCALED: u128 = 9671406547909834142908416;

/// `n / d` rounded to the nearest integer, ties to the even one (how a
/// double rounds).
pub open spec fn round_half_even(n: nat, d: nat) -> nat {
    let q = n / d;
    let r = n % d;
    if 2 * r > d || (2 * r == d && q % 2 == 1) {
        q + 1
    } else {
        q
    }
}

/// How many doublings bring `n` (positive) to at least `lo`.
pub open spec fn doublings(n: nat, lo: nat) -> nat
    decreases (if n < lo { lo - n } else { 0 }),
{
    if n == 0 || n >= lo {
        0
    } else {
        1 + doublings(2 * n, lo)
    }
}

/// How many halvings bring `n` below `hi` (positive).
pub open spec fn halvings(n: nat, hi: nat) -> nat
    decreases n,
{
    if hi == 0 || n < hi {
        0
    } else {
        1 + halvings(n / 2, hi)
    }
}

/// The position, out of `i + 1`, that the draw `s` picks, computed as a
/// double: `(s - 1) / (2^31 - 2)` rounded to a double, times `i + 1` rounded
/// to a double, the product rounded to a double, then cut to an integer.
/// Every rounding is to the nearest value with a 53-bit significand, ties to
/// the even one.
pub open spec fn float_pick(s: u64, i: int) -> int {
    let a = (s - 1) as nat;
    let k = (i + 1) as nat;
    if a == 0 {
        0
    } else {
        let t = doublings(a, LOW_SCALED as nat);
        let m = round_half_even(a * pow2(t), DRAW_SPAN as nat);
        let u = halvings(k, EXACT as nat);
        let kk = round_half_even(k, pow2(u));
        let p = m * kk;
        let v = halvings(p, EXACT as nat);
        let p1 = round_half_even(p, pow2(v));
        ((p1 * pow2(v + u)) / pow2(t)) as int
    }
}

/// A rounded quotient overshoots by at most half the divisor.
proof fn lemma_round_bound(n: nat, d: nat)
    requires
        d > 0,
    ensures
        2 * round_half_even(n, d) * d <= 2 * n + d,
        round_half_even(n, d) <= n / d + 1,
        round_half_even(n, d) >= n / d,
{
    let q = n / d;
    let r = n % d;
    vstd::arithmetic::div_mod::lemma_fundamental_div_mod(n as int, d as int);
    if 2 * r > d || (2 * r == d && q % 2 == 1) {
        assert(2 * (q + 1) * d <= 2 * n + d) by (nonlinear_arith)
            requires
                n == d * q + r,
                2 * r >= d,
        ;
    } else {
        assert(2 * q * d <= 2 * n + d) by (nonlinear_arith)
            requires
                n == d * q + r,
                r >= 0,
        ;
    }
}

/// The rounded product stays below `k`: the pick is at most `k - 1`.
proof fn lemma_pick_below(a: int, t2: int, m: int, k: int, u2: int, kk: int, p: int, w2: int, p1: int)
    requires
        1 <= a <= 2147483645,
        t2 >= 1,
        a * t2 >= 9671406547909834142908416,
        2 * m * 2147483646 <= 2 * a * t2 + 2147483646,
        m >= 0,
        k >= 1,
        u2 >= 1,
        kk >= 0,
        2 * kk * u2 <= 2 * k + u2,
        u2 > 1 ==> u2 * 9007199254740992 <= 2 * k,
        p == m * kk,
        w2 >= 1,
        p1 >= 0,
        2 * p1 * w2 <= 2 * p + w2,
        w2 > 1 ==> w2 * 9007199254740992 <= 2 * p,
    ensures
        p1 * w2 * u2 < k * t2,
{
    let e: int = 9007199254740992;
    let d: int = 2147483646;
    // t2 >= 2^52
    assert(t2 >= 4503599627370496) by (nonlinear_arith)
        requires
            1 <= a <= 2147483645,
            a * t2 >= 9671406547909834142908416,
    ;
    // kk * u2 * e <= k * (e + 1)
    assert(kk * u2 * e <= k * (e + 1)) by (nonlinear_arith)
        requires
            2 * kk * u2 <= 2 * k + u2,
            u2 > 1 ==> u2 * 9007199254740992 <= 2 * k,
            u2 >= 1,
            k >= 1,
            e == 9007199254740992,
    ;
    assert(p1 * w2 * e <= p * (e + 1)) by (nonlinear_arith)
        requires
            2 * p1 * w2 <= 2 * p + w2,
            w2 > 1 ==> w2 * 9007199254740992 <= 2 * p,
            w2 >= 1,
            p >= 0,
            e == 9007199254740992,
    ;
    // p1 * w2 * u2 * e * e <= m * k * (e + 1) * (e + 1)
    assert(p1 * w2 * u2 * e * e <= m * k * (e + 1) * (e + 1)) by (nonlinear_arith)
        requires
            p1 * w2 * e <= p * (e + 1),
            kk * u2 * e <= k * (e + 1),
            p == m * kk,
            u2 >= 1,
            m >= 0,
            e > 0,
    ;
    // 2 d m <= 2 (d - 1) t2 + d
    assert(2 * d * m <= 2 * (d - 1) * t2 + d) by (nonlinear_arith)
        requires
            2 * m * 2147483646 <= 2 * a * t2 + 2147483646,
            a <= 2147483645,
            t2 >= 1,
            d == 2147483646,
    ;
    // the constant bound, linear in t2
    assert((e + 1) * (e + 1) * (2 * (d - 1) * t2 + d) < 2 * d * t2 * e * e) by (nonlinear_arith)
        requires
            t2 >= 4503599627370496,
            e == 9007199254740992,
            d == 2147483646,
    ;
    assert(2 * d * (p1 * w2 * u2) * e * e < 2 * d * (k * t2) * e * e) by (nonlinear_arith)
        requires
            p1 * w2 * u2 * e * e <= m * k * (e + 1) * (e + 1),
            2 * d * m <= 2 * (d - 1) * t2 + d,
            (e + 1) * (e + 1) * (2 * (d - 1) * t2 + d) < 2 * d * t2 * e * e,
            k >= 1,
            m >= 0,
            d > 0,
            e > 0,
    ;
    assert(p1 * w2 * u2 < k * t2) by (nonlinear_arith)
        requires
            2 * d * (p1 * w2 * u2) * e * e < 2 * d * (k * t2) * e * e,
            d > 0,
            e > 0,
    ;
}

/// `n / d` rounded to the nearest integer, ties to the even one.
fn round_div(n: u128, d: u128) -> (r: u128)
    requires
        d > 0,
        n / d < u128::MAX,
    ensures
        r == round_half_even(n as nat, d as nat),
{
    let q = n / d;
    let rem = n % d;
    if rem > d - rem || (rem == d - rem && q % 2 == 1) {
        q + 1
    } else {
        q
    }
}

/// The position, out of `i + 1`, that the draw `s` picks when it is scaled
/// to [0, 1) and multiplied by `i + 1` in double precision (see
/// `float_pick`).
pub fn scaled_draw(s: u64, i: usize) -> (r: usize)
    requires
        1 <= s <= 2147483646,
    ensures
        r == float_pick(s, i as int),
        r <= i,
{
    let a: u128 = (s - 1) as u128;
    if a == 0 {
        return 0;
    }
    // the draw quotient, scaled until its 53 leading bits are integral
    let mut num: u128 = a;
    let mut t: u128 = 0;
    let mut p2t: u128 = 1;
    proof {
        lemma2_to64();
    }
    while num < LOW_SCALED
        invariant
            1 <= a <= 2147483645,
            num == a * p2t,
            p2t == pow2(t as nat),
            1 <= p2t <= num,
            t < p2t,
            num < 2 * LOW_SCALED,
            doublings(a as nat, LOW_SCALED as nat) == t + doublings(num as nat, LOW_SCALED as nat),
        decreases 2 * LOW_SCALED - num,
    {
        proof {
            lemma_pow2_unfold((t + 1) as nat);
            assert(num * 2 == a * (p2t * 2)) by (nonlinear_arith)
                requires
                    num == a * p2t,
            ;
        }
        num = num * 2;
        p2t = p2t * 2;
        t = t + 1;
    }
    proof {
        lemma_round_bound(num as nat, DRAW_SPAN as nat);
        assert(num / DRAW_SPAN < EXACT) by (nonlinear_arith)
            requires
                num < 2 * LOW_SCALED,
        ;
    }
    let m = round_div(num, DRAW_SPAN);
    assert(m <= EXACT);
    assert(2 * m * 2147483646 <= 2 * a * p2t + 2147483646) by (nonlinear_arith)
        requires
            num == a * p2t,
            2 * m * 2147483646 <= 2 * num + 2147483646,
    ;
    // the row count as a double
    let k: u128 = i as u128 + 1;
    let mut kn: u128 = k;
    let mut u: u128 = 0;
    let mut p2u: u128 = 1;
    while kn >= EXACT
        invariant
            1 <= k <= 18446744073709551616,
            kn == k / p2u,
            p2u == pow2(u as nat),
            p2u >= 1,
            u < p2u,
            u > 0 ==> p2u * EXACT <= 2 * k,
            halvings(k as nat, EXACT as nat) == u + halvings(kn as nat, EXACT as nat),
        decreases kn,
    {
        proof {
            lemma_pow2_unfold((u + 1) as nat);
            vstd::arithmetic::div_mod::lemma_div_denominator(k as int, p2u as int, 2);
            assert(p2u * EXACT <= k) by (nonlinear_arith)
                requires
                    kn == k / p2u,
                    kn >= EXACT,
                    p2u >= 1,
            ;
        }
        kn = kn / 2;
        p2u = p2u * 2;
        u = u + 1;
    }
    proof {
        lemma_round_bound(k as nat, p2u as nat);
    }
    let kk = round_div(k, p2u);
    assert(kk <= EXACT);
    assert(m * kk <= EXACT * EXACT) by (nonlinear_arith)
        requires
            m <= EXACT,
            kk <= EXACT,
    ;
    let p = m * kk;
    // the product rounded to a double
    let mut pn: u128 = p;
    let mut v: u128 = 0;
    let mut p2v: u128 = 1;
    while pn >= EXACT
        invariant
            p <= EXACT * EXACT,
            pn == p / p2v,
            p2v == pow2(v as nat),
            p2v >= 1,
            v < p2v,
            v > 0 ==> p2v * EXACT <= 2 * p,
            halvings(p as nat, EXACT as nat) == v + halvings(pn as nat, EXACT as nat),
        decreases pn,
    {
        proof {
            lemma_pow2_unfold((v + 1) as nat);
            vstd::arithmetic::div_mod::lemma_div_denominator(p as int, p2v as int, 2);
            assert(p2v * EXACT <= p) by (nonlinear_arith)
                requires
                    pn == p / p2v,
                    pn >= EXACT,
                    p2v >= 1,
            ;
        }
        pn = pn / 2;
        p2v = p2v * 2;
        v = v + 1;
    }
    proof {
        lemma_round_bound(p as nat, p2v as nat);
    }
    let p1 = round_div(p, p2v);
    proof {
        lemma_pick_below(a as int, p2t as int, m as int, k as int, p2u as int, kk as int, p as int, p2v as int, p1 as int);
        vstd::arithmetic::power2::lemma_pow2_adds(v as nat, u as nat);
        assert(p1 * p2v * p2u < k * p2t);
        assert(p2u <= 4096) by (nonlinear_arith)
            requires
                u > 0 ==> p2u * EXACT <= 2 * k,
                k <= 18446744073709551616,
                p2u >= 1,
                u >= 0,
                p2u == 1 || u > 0,
        ;
        assert(p1 * p2v <= 2 * EXACT * EXACT + 1) by (nonlinear_arith)
            requires
                2 * p1 * p2v <= 2 * p + p2v,
                v > 0 ==> p2v * EXACT <= 2 * p,
                p2v == 1 || v > 0,
                p <= EXACT * EXACT,
                p2v >= 1,
        ;
    }
    let pv = p1 * p2v;
    proof {
        assert(pv * p2u <= 4096 * (2 * EXACT * EXACT + 1)) by (nonlinear_arith)
            requires
                pv <= 2 * EXACT * EXACT + 1,
                p2u <= 4096,
        ;
    }
    let scaled = pv * p2u;
    let r = scaled / p2t;
    proof {
        assert(scaled == p1 * pow2((v + u) as nat)) by (nonlinear_arith)
            requires
                pow2((v + u) as nat) == pow2(v as nat) * pow2(u as nat),
                p2v == pow2(v as nat),
                p2u == pow2(u as nat),
                pv == p1 * p2v,
                scaled == pv * p2u,
        ;
        assert(scaled < k * p2t) by (nonlinear_arith)
            requires
                p1 * p2v * p2u < k * p2t,
                pv == p1 * p2v,
                scaled == pv * p2u,
        ;
        assert(r < k) by (nonlinear_arith)
            requires
                scaled < k * p2t,
                r == scaled / p2t,
                p2t >= 1,
        ;
        assert(t == doublings(a as nat, LOW_SCALED as nat));
        assert(u == halvings(k as nat, EXACT as nat));
        assert(v == halvings(p as nat, EXACT as nat));
    }
    r as usize
}

} // verus!
