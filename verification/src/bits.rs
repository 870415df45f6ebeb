use vstd::prelude::*;
use vstd::std_specs::bits::{u64_leading_zeros, u64_trailing_zeros, axiom_u64_leading_zeros, axiom_u64_trailing_zeros};

verus! {

/// Bit `y` of the word `c` (rows above 63 read as empty).
pub open spec fn bit(c: u64, y: int) -> bool {
    0 <= y < 64 && (c >> (y as u64)) & 1u64 == 1u64
}

pub proof fn lemma_or_single(c: u64, y: u64, r: u64)
    requires
        y < 64,
        r < 64,
    ensures
        ((c | (1u64 << y)) >> r) & 1u64 == 1u64 <==> (r == y || (c >> r) & 1u64 == 1u64),
{
    assert(((c | (1u64 << y)) >> r) & 1u64 == 1u64 <==> (r == y || (c >> r) & 1u64 == 1u64))
        by (bit_vector)
        requires
            y < 64,
            r < 64,
    ;
}

pub proof fn lemma_and_single(c: u64, y: u64)
    requires
        y < 64,
    ensures
        (c & (1u64 << y)) != 0 <==> (c >> y) & 1u64 == 1u64,
{
    assert((c & (1u64 << y)) != 0 <==> (c >> y) & 1u64 == 1u64) by (bit_vector)
        requires
            y < 64,
    ;
}


/// The word `c` with row `y` deleted: rows above `y` drop by one and an
/// empty row enters at the top.
pub proof fn lemma_remove_row_bits(c: u64, y: u64, y1: u64, m: u64, r: u64, r1: u64)
    requires
        y < 63,
        y1 == y + 1,
        m == (1u64 << y) - 1,
        r < 64,
        r1 == r + 1,
    ensures
        ((((c >> y1) << y) | (c & m)) >> r) & 1u64 == 1u64 <==> (if r < y {
            (c >> r) & 1u64 == 1u64
        } else if r < 63 {
            (c >> r1) & 1u64 == 1u64
        } else {
            false
        }),
{
    assert(((((c >> y1) << y) | (c & m)) >> r) & 1u64 == 1u64 <==> (if r < y {
        (c >> r) & 1u64 == 1u64
    } else if r < 63 {
        (c >> r1) & 1u64 == 1u64
    } else {
        false
    })) by (bit_vector)
        requires
            y < 63,
            y1 == y + 1,
            m == (1u64 << y) - 1,
            r < 64,
            r1 == r + 1,
    ;
}

/// Shifting a column up by `a` rows (dropping what passes row 39) and
/// filling the new bottom rows or leaving them empty.
pub proof fn lemma_raise_bits(c: u64, a: u64, m: u64, bm: u64, r: u64, ra: u64)
    requires
        0 < a < 64,
        m == 0xff_ffff_ffffu64,
        bm == (1u64 << a) - 1,
        r < 64,
        r >= a ==> ra == r - a,
    ensures
        ((((c << a) & m) | bm) >> r) & 1u64 == 1u64 <==> (r < a || (r < 40 && (c >> ra) & 1u64 == 1u64)),
        ((((c << a) & m)) >> r) & 1u64 == 1u64 <==> (r < 40 && r >= a && (c >> ra) & 1u64 == 1u64),
{
    assert(((((c << a) & m) | bm) >> r) & 1u64 == 1u64 <==> (r < a || (r < 40 && (c >> ra) & 1u64 == 1u64))) by (bit_vector)
        requires
            0 < a < 64,
            m == 0xff_ffff_ffffu64,
            bm == (1u64 << a) - 1,
            r < 64,
            r >= a ==> ra == r - a,
    ;
    assert(((((c << a) & m)) >> r) & 1u64 == 1u64 <==> (r < 40 && r >= a && (c >> ra) & 1u64 == 1u64)) by (bit_vector)
        requires
            0 < a < 64,
            m == 0xff_ffff_ffffu64,
            r < 64,
            r >= a ==> ra == r - a,
    ;
}

pub proof fn lemma_low_mask_pos(a: u64)
    requires
        a < 64,
    ensures
        (1u64 << a) >= 1,
{
    assert((1u64 << a) >= 1) by (bit_vector)
        requires
            a < 64,
    ;
}

/// The height of a column: one above its highest filled row, 0 when empty.
pub open spec fn col_height(c: u64) -> int {
    64 - u64_leading_zeros(c)
}

pub proof fn lemma_col_height(c: u64)
    ensures
        0 <= col_height(c) <= 64,
        c == 0 <==> col_height(c) == 0,
        col_height(c) > 0 ==> bit(c, col_height(c) - 1),
        forall|y: int| col_height(c) <= y ==> !#[trigger] bit(c, y),
{
    axiom_u64_leading_zeros(c);
    let lz = u64_leading_zeros(c);
    if lz < 64 {
        let sh = (63 - lz) as u64;
        assert((c >> sh) & 1u64 != 0u64 ==> (c >> sh) & 1u64 == 1u64) by (bit_vector);
        assert(bit(c, 63 - lz));
    }
    assert forall|y: int| col_height(c) <= y implies !#[trigger] bit(c, y) by {
        if 0 <= y < 64 {
            assert((c >> (y as u64)) & 1u64 == 0u64);
        }
    }
}

/// The lowest set bit of `m` is at `u64_trailing_zeros(m)`.
pub proof fn lemma_lowest_bit(m: u64)
    ensures
        m != 0 ==> u64_trailing_zeros(m) < 64 && bit(m, u64_trailing_zeros(m) as int),
        forall|y: int| 0 <= y < u64_trailing_zeros(m) ==> !#[trigger] bit(m, y),
        m == 0 ==> u64_trailing_zeros(m) == 64,
{
    axiom_u64_trailing_zeros(m);
    assert forall|y: int| 0 <= y < u64_trailing_zeros(m) implies !#[trigger] bit(m, y) by {
        assert((m >> (y as u64)) & 1u64 == 0u64);
    }
}

/// The number of set bits of `m`.
pub open spec fn ones(m: u64) -> nat {
    count_range(|y: int| bit(m, y), 0, 64)
}

/// Counts the set bits of `m`.
pub fn count_ones(m: u64) -> (r: u32)
    ensures
        r == ones(m),
{
    let ghost p = |y: int| bit(m, y);
    let mut r: u32 = 0;
    let mut i: u32 = 64;
    while i > 0
        invariant
            i <= 64,
            p == (|y: int| bit(m, y)),
            r == count_range(p, i as int, 64),
            r <= 64 - i,
        decreases i,
    {
        i = i - 1;
        if (m >> (i as u64)) & 1u64 == 1u64 {
            r = r + 1;
        }
        assert(count_range(p, i as int, 64) == (if p(i as int) { 1nat } else { 0nat }) + count_range(p, i + 1, 64));
    }
    r
}

/// The sum of `f(0)`, ..., `f(n - 1)`.
pub open spec fn sum_to(f: spec_fn(int) -> int, n: int) -> int
    decreases n,
{
    if n <= 0 {
        0
    } else {
        sum_to(f, n - 1) + f(n - 1)
    }
}

pub proof fn lemma_bit_ops(a: u64, b: u64, y: u64)
    requires
        y < 64,
    ensures
        ((a & b) >> y) & 1u64 == 1u64 <==> ((a >> y) & 1u64 == 1u64 && (b >> y) & 1u64 == 1u64),
        ((!a) >> y) & 1u64 == 1u64 <==> !((a >> y) & 1u64 == 1u64),
        ((!0u64) >> y) & 1u64 == 1u64,
        ((a >> 1u64) >> y) & 1u64 == 1u64 <==> (y < 63 && (a >> ((y + 1) as u64)) & 1u64 == 1u64),
{
    assert(((a & b) >> y) & 1u64 == 1u64 <==> ((a >> y) & 1u64 == 1u64 && (b >> y) & 1u64 == 1u64)) by (bit_vector)
        requires y < 64;
    assert(((!a) >> y) & 1u64 == 1u64 <==> !((a >> y) & 1u64 == 1u64)) by (bit_vector)
        requires y < 64;
    assert(((!0u64) >> y) & 1u64 == 1u64) by (bit_vector)
        requires y < 64;
    if y < 63 {
        let y1 = (y + 1) as u64;
        assert(((a >> 1u64) >> y) & 1u64 == 1u64 <==> (a >> y1) & 1u64 == 1u64) by (bit_vector)
            requires y < 63, y1 == y + 1;
    } else {
        assert(((a >> 1u64) >> y) & 1u64 == 0u64) by (bit_vector)
            requires y == 63;
    }
}

pub proof fn lemma_low_mask_bits(h: u64, y: u64)
    requires
        h < 64,
        y < 64,
    ensures
        1u64 << h >= 1,
        (((1u64 << h) - 1) as u64 >> y) & 1u64 == 1u64 <==> y < h,
{
    assert(1u64 << h >= 1) by (bit_vector)
        requires h < 64;
    assert((((1u64 << h) - 1) as u64 >> y) & 1u64 == 1u64 <==> y < h) by (bit_vector)
        requires h < 64, y < 64;
}

pub proof fn lemma_bit_basics(c: u64, y: u64)
    requires
        y < 64,
    ensures
        (0u64 >> y) & 1u64 != 1u64,
        ((!0u64) >> y) & 1u64 == 1u64,
        ((c >> y) & 1u64 != 0u64) == ((c >> y) & 1u64 == 1u64),
{
    assert((0u64 >> y) & 1u64 != 1u64) by (bit_vector);
    assert(((!0u64) >> y) & 1u64 == 1u64) by (bit_vector)
        requires y < 64;
    assert(((c >> y) & 1u64 != 0u64) == ((c >> y) & 1u64 == 1u64)) by (bit_vector);
}

proof fn lemma_high_bits_eq(a: u64, c: u64, n: u64)
    requires
        n <= 63,
        forall|y: int| n <= y < 64 ==> #[trigger] bit(a, y) == bit(c, y),
    ensures
        a >> n == c >> n,
    decreases 63 - n,
{
    assert(bit(a, n as int) == bit(c, n as int));
    if n == 63 {
        assert((((a >> 63u64) & 1u64 == 1u64) == ((c >> 63u64) & 1u64 == 1u64)) ==> a >> 63u64 == c >> 63u64)
            by (bit_vector);
    } else {
        lemma_high_bits_eq(a, c, (n + 1) as u64);
        let m = (n + 1) as u64;
        assert((a >> m == c >> m && (((a >> n) & 1u64 == 1u64) == ((c >> n) & 1u64 == 1u64))) ==> a >> n == c >> n)
            by (bit_vector)
            requires
                n < 63,
                m == n + 1,
        ;
    }
}

/// A word is determined by its 64 bits.
pub proof fn lemma_bits_determine(a: u64, c: u64)
    requires
        forall|y: int| 0 <= y < 64 ==> #[trigger] bit(a, y) == bit(c, y),
    ensures
        a == c,
{
    lemma_high_bits_eq(a, c, 0);
    assert(a >> 0u64 == a && c >> 0u64 == c) by (bit_vector);
}

/// The 64 rows of a column word, bottom first.
pub open spec fn col_bits(c: u64) -> Seq<bool> {
    Seq::new(64, |y: int| bit(c, y))
}

/// The rows of `s` whose index `del` does not select, in order.
pub open spec fn keep_rows(s: Seq<bool>, del: spec_fn(int) -> bool) -> Seq<bool>
    decreases s.len(),
{
    if s.len() == 0 {
        s
    } else {
        let t = keep_rows(s.drop_last(), del);
        if del(s.len() - 1) {
            t
        } else {
            t.push(s.last())
        }
    }
}

/// `t` topped up with empty rows to the 64 rows of a column.
pub open spec fn pad_rows(t: Seq<bool>) -> Seq<bool> {
    t + Seq::new((64 - t.len()) as nat, |i: int| false)
}

/// How many `r` in `lo..hi` satisfy `p`.
pub open spec fn count_range(p: spec_fn(int) -> bool, lo: int, hi: int) -> nat
    decreases hi - lo,
{
    if lo >= hi {
        0
    } else {
        (if p(lo) { 1nat } else { 0nat }) + count_range(p, lo + 1, hi)
    }
}

pub proof fn lemma_count_range_le(p: spec_fn(int) -> bool, lo: int, hi: int)
    ensures
        count_range(p, lo, hi) <= if hi > lo { hi - lo } else { 0 },
    decreases hi - lo,
{
    if lo < hi {
        lemma_count_range_le(p, lo + 1, hi);
    }
}

/// Counting a predicate that only holds below `g` counts at most `g - lo`.
pub proof fn lemma_count_range_below(p: spec_fn(int) -> bool, lo: int, hi: int, g: int)
    requires
        forall|r: int| #[trigger] p(r) ==> r < g,
    ensures
        count_range(p, lo, hi) <= if g > lo { g - lo } else { 0 },
    decreases hi - lo,
{
    if lo < hi {
        lemma_count_range_below(p, lo + 1, hi, g);
    }
}

pub proof fn lemma_count_range_ext(p: spec_fn(int) -> bool, q: spec_fn(int) -> bool, lo: int, hi: int)
    requires
        forall|r: int| lo <= r < hi ==> #[trigger] p(r) == q(r),
    ensures
        count_range(p, lo, hi) == count_range(q, lo, hi),
    decreases hi - lo,
{
    if lo < hi {
        lemma_count_range_ext(p, q, lo + 1, hi);
    }
}

pub proof fn lemma_keep_rows_none(s: Seq<bool>, del: spec_fn(int) -> bool)
    requires
        forall|r: int| 0 <= r < s.len() ==> !#[trigger] del(r),
    ensures
        keep_rows(s, del) == s,
    decreases s.len(),
{
    if s.len() > 0 {
        lemma_keep_rows_none(s.drop_last(), del);
        assert(s.drop_last().push(s.last()) =~= s);
    }
}

pub proof fn lemma_keep_rows_len(s: Seq<bool>, del: spec_fn(int) -> bool)
    ensures
        keep_rows(s, del).len() <= s.len(),
    decreases s.len(),
{
    if s.len() > 0 {
        lemma_keep_rows_len(s.drop_last(), del);
    }
}

/// Deleting one more row `y`, below which nothing was deleted, removes
/// position `y` from what was kept.
pub proof fn lemma_keep_rows_remove(s: Seq<bool>, del: spec_fn(int) -> bool, y: int)
    requires
        0 <= y < s.len(),
        forall|r: int| 0 <= r <= y ==> !#[trigger] del(r),
    ensures
        keep_rows(s, del).len() > y,
        keep_rows(s, |r: int| del(r) || r == y) == keep_rows(s, del).remove(y),
    decreases s.len(),
{
    let del2 = |r: int| del(r) || r == y;
    let n = s.len() - 1;
    if n == y {
        lemma_keep_rows_none(s.drop_last(), del);
        lemma_keep_rows_none(s.drop_last(), del2);
        assert(s.drop_last().push(s.last()) =~= s);
        assert(s.remove(y) =~= s.drop_last());
    } else {
        lemma_keep_rows_remove(s.drop_last(), del, y);
        let t = keep_rows(s.drop_last(), del);
        if !del(n) {
            assert(t.push(s.last()).remove(y) =~= t.remove(y).push(s.last()));
        }
    }
}

pub proof fn lemma_pad_rows_remove(t: Seq<bool>, y: int)
    requires
        0 <= y < t.len() <= 64,
    ensures
        pad_rows(t).remove(y).push(false) == pad_rows(t.remove(y)),
{
    assert(pad_rows(t).remove(y).push(false) =~= pad_rows(t.remove(y)));
}

} // verus!
