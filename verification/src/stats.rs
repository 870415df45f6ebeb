use vstd::prelude::*;
use vstd::std_specs::bits::u64_trailing_zeros;
use crate::bits::{
    bit, col_height, count_ones, count_range, ones, sum_to, lemma_col_height, lemma_bit_ops,
    lemma_low_mask_bits, lemma_count_range_ext, lemma_lowest_bit, lemma_count_range_le,
};
use crate::board::{Board, BOARD_WIDTH, BOARD_UPPER_HALF, BOARD_UPPER_QUARTER};

verus! {

/// Whether row `y` of column `c` is empty with a filled cell right above it.
pub open spec fn is_overhang(c: u64, y: int) -> bool {
    0 <= y < 63 && !bit(c, y) && bit(c, y + 1)
}

/// The lowest row of `c` that is empty with a filled cell right above it.
pub open spec fn lowest_overhang(c: u64) -> int {
    choose|y: int| is_overhang(c, y) && forall|z: int| 0 <= z < y ==> !#[trigger] is_overhang(c, z)
}

/// How many rows lie strictly between the lowest covered gap of `c` and its
/// highest filled row (0 when no gap is covered).
pub open spec fn overstack(c: u64) -> int {
    if exists|y: int| #[trigger] is_overhang(c, y) {
        col_height(c) - 2 - lowest_overhang(c)
    } else {
        0
    }
}

pub open spec fn min_int(a: int, b: int) -> int {
    if a <= b { a } else { b }
}

pub open spec fn max_int(a: int, b: int) -> int {
    if a >= b { a } else { b }
}

pub open spec fn abs_int(a: int) -> int {
    if a >= 0 { a } else { -a }
}

impl Board {
    /// The height of column `x`.
    pub open spec fn height(&self, x: int) -> int {
        col_height(self.cols[x])
    }

    /// The greatest height among columns `lo..hi` (0 for none).
    pub open spec fn max_height_between(&self, lo: int, hi: int) -> int
        decreases hi - lo,
    {
        if hi <= lo {
            0
        } else {
            max_int(self.max_height_between(lo, hi - 1), self.height(hi - 1))
        }
    }

    /// Whether no column reaches row 63.
    pub open spec fn below_top_word(&self) -> bool {
        forall|x: int| 0 <= x < 10 ==> !#[trigger] bit(self.cols[x], 63)
    }

    /// The empty cells of column `x` below its highest filled cell.
    pub open spec fn holes(&self, x: int) -> int {
        count_range(|y: int| y < self.height(x) && !bit(self.cols[x], y), 0, 64) as int
    }

    /// The holes of column `x` whose left and right neighbours are filled
    /// (a wall counts as filled).
    pub open spec fn covered(&self, x: int) -> int {
        count_range(
            |y: int|
                y < self.height(x) && !bit(self.cols[x], y) && (x == 0 || bit(self.cols[x - 1], y)) && (
                x == 9 || bit(self.cols[x + 1], y)),
            0,
            64,
        ) as int
    }

    /// Whether column `x` is a well: both neighbours (walls count as 63
    /// high) stand at least 3 rows above it.
    pub open spec fn is_well(&self, x: int) -> bool {
        let left = if x == 0 { 63 } else { self.height(x - 1) };
        let right = if x == 9 { 63 } else { self.height(x + 1) };
        min_int(left, right) - self.height(x) >= 3
    }

    fn height_of(&self, x: usize) -> (h: u32)
        requires
            x < 10,
        ensures
            h == self.height(x as int),
            h <= 64,
    {
        proof {
            lemma_col_height(self.cols[x as int]);
        }
        64u32 - self.cols[x].leading_zeros()
    }

    fn max_height_in(&self, lo: usize, hi: usize) -> (r: i32)
        requires
            lo <= hi <= 10,
        ensures
            r == self.max_height_between(lo as int, hi as int),
            0 <= r <= 64,
    {
        let mut max_h: i32 = 0;
        let mut x = lo;
        while x < hi
            invariant
                lo <= x <= hi <= 10,
                max_h == self.max_height_between(lo as int, x as int),
                0 <= max_h <= 64,
            decreases hi - x,
        {
            let h = self.height_of(x) as i32;
            if h > max_h {
                max_h = h;
            }
            x += 1;
        }
        max_h
    }

    /// The height of the tallest column.
    pub fn max_height(&self) -> (r: i32)
        ensures
            r == self.max_height_between(0, 10),
            0 <= r <= 64,
    {
        self.max_height_in(0, BOARD_WIDTH)
    }

    /// How far the tallest column reaches above row 20 (0 if it does not).
    pub fn upper_half_height(&self) -> (r: i32)
        ensures
            r == max_int(self.max_height_between(0, 10) - 20, 0),
    {
        let d = self.max_height() - BOARD_UPPER_HALF as i32;
        if d > 0 { d } else { 0 }
    }

    /// How far the tallest column reaches above row 30 (0 if it does not).
    pub fn upper_quarter_height(&self) -> (r: i32)
        ensures
            r == max_int(self.max_height_between(0, 10) - 30, 0),
    {
        let d = self.max_height() - BOARD_UPPER_QUARTER as i32;
        if d > 0 { d } else { 0 }
    }

    /// The height of the tallest of the four middle columns (3 to 6).
    pub fn center_height(&self) -> (r: i32)
        ensures
            r == self.max_height_between(3, 7),
            0 <= r <= 64,
    {
        self.max_height_in(3, 7)
    }

    /// The number of holes over all columns.
    pub fn count_holes(&self) -> (r: i32)
        requires
            self.below_top_word(),
        ensures
            r == sum_to(|x: int| self.holes(x), 10),
            0 <= r <= 640,
    {
        let mut total: u32 = 0;
        let mut x: usize = 0;
        while x < BOARD_WIDTH
            invariant
                x <= 10,
                self.below_top_word(),
                total == sum_to(|i: int| self.holes(i), x as int),
                total <= 64 * x,
            decreases 10 - x,
        {
            let c = self.cols[x];
            let h = self.height_of(x);
            proof {
                lemma_col_height(c);
                if h == 64 {
                    assert(bit(c, 63));
                }
                lemma_low_mask_bits(h as u64, 0);
            }
            let mask = !c & ((1u64 << (h as u64)) - 1);
            let n = count_ones(mask);
            proof {
                assert forall|y: int| 0 <= y < 64 implies #[trigger] bit(mask, y) == (y < self.height(x as int) && !bit(c, y)) by {
                    lemma_bit_ops(!c, ((1u64 << (h as u64)) - 1) as u64, y as u64);
                    lemma_bit_ops(c, 0, y as u64);
                    lemma_low_mask_bits(h as u64, y as u64);
                }
                lemma_count_range_ext(|y: int| bit(mask, y), |y: int| y < self.height(x as int) && !bit(self.cols[x as int], y), 0, 64);
                lemma_count_range_le(|y: int| bit(mask, y), 0, 64);
            }
            total = total + n;
            x += 1;
        }
        total as i32
    }

    /// The number of holes whose left and right neighbours are both filled.
    pub fn covered_holes(&self) -> (r: i32)
        requires
            self.below_top_word(),
        ensures
            r == sum_to(|x: int| self.covered(x), 10),
            0 <= r <= 640,
    {
        let mut total: u32 = 0;
        let mut x: usize = 0;
        while x < BOARD_WIDTH
            invariant
                x <= 10,
                self.below_top_word(),
                total == sum_to(|i: int| self.covered(i), x as int),
                total <= 64 * x,
            decreases 10 - x,
        {
            let c = self.cols[x];
            let h = self.height_of(x);
            proof {
                lemma_col_height(c);
                if h == 64 {
                    assert(bit(c, 63));
                }
                lemma_low_mask_bits(h as u64, 0);
            }
            let hole_map = !c & ((1u64 << (h as u64)) - 1);
            let left = if x == 0 { !0u64 } else { self.cols[x - 1] };
            let right = if x == BOARD_WIDTH - 1 { !0u64 } else { self.cols[x + 1] };
            let mask = hole_map & left & right;
            let n = count_ones(mask);
            proof {
                let p = |y: int|
                    y < self.height(x as int) && !bit(self.cols[x as int], y) && (x == 0 || bit(self.cols[x - 1], y))
                        && (x == 9 || bit(self.cols[x + 1], y));
                assert forall|y: int| 0 <= y < 64 implies #[trigger] bit(mask, y) == p(y) by {
                    let yy = y as u64;
                    lemma_bit_ops(hole_map & left, right, yy);
                    lemma_bit_ops(hole_map, left, yy);
                    lemma_bit_ops(!c, ((1u64 << (h as u64)) - 1) as u64, yy);
                    lemma_bit_ops(c, 0, yy);
                    lemma_low_mask_bits(h as u64, yy);
                }
                lemma_count_range_ext(|y: int| bit(mask, y), p, 0, 64);
                lemma_count_range_le(|y: int| bit(mask, y), 0, 64);
            }
            total = total + n;
            x += 1;
        }
        total as i32
    }

    /// Over all columns, the rows between the lowest covered gap and the top
    /// of the column.
    pub fn overstacked_holes(&self) -> (r: i32)
        ensures
            r == sum_to(|x: int| overstack(self.cols[x]), 10),
            0 <= r <= 640,
    {
        let mut total: u32 = 0;
        let mut x: usize = 0;
        while x < BOARD_WIDTH
            invariant
                x <= 10,
                total == sum_to(|i: int| overstack(self.cols[i]), x as int),
                total <= 64 * x,
            decreases 10 - x,
        {
            let c = self.cols[x];
            let mask = !c & (c >> 1u64);
            proof {
                assert forall|y: int| 0 <= y < 64 implies #[trigger] bit(mask, y) == is_overhang(c, y) by {
                    let yy = y as u64;
                    lemma_bit_ops(!c, c >> 1u64, yy);
                    lemma_bit_ops(c, c, yy);
                }
                lemma_lowest_bit(mask);
                lemma_col_height(c);
            }
            let v: u32 = if mask == 0 {
                proof {
                    if exists|y: int| #[trigger] is_overhang(c, y) {
                        let y = choose|y: int| #[trigger] is_overhang(c, y);
                        assert(bit(mask, y));
                        assert((mask >> (y as u64)) & 1u64 == 1u64);
                        let yy = y as u64;
                        assert((0u64 >> yy) & 1u64 == 0u64) by (bit_vector);
                    }
                }
                0
            } else {
                let tz = mask.trailing_zeros();
                proof {
                    let t = tz as int;
                    assert(is_overhang(c, t));
                    assert forall|z: int| 0 <= z < t implies !#[trigger] is_overhang(c, z) by {
                        assert(!bit(mask, z));
                    }
                    let lo = lowest_overhang(c);
                    assert(is_overhang(c, lo) && forall|z: int| 0 <= z < lo ==> !#[trigger] is_overhang(c, z));
                    if lo < t {
                        assert(!is_overhang(c, lo));
                    }
                    if t < lo {
                        assert(!is_overhang(c, t));
                    }
                    assert(bit(c, t + 1));
                    assert(col_height(c) > t + 1);
                }
                let top = 63u32 - c.leading_zeros();
                top - tz - 1
            };
            total = total + v;
            x += 1;
        }
        total as i32
    }

    /// The sum of the height differences between neighbouring columns.
    pub fn unevenness(&self) -> (r: i32)
        ensures
            r == sum_to(|x: int| if x >= 1 { abs_int(self.height(x - 1) - self.height(x)) } else { 0 }, 10),
            0 <= r <= 640,
    {
        let mut unevenness: i32 = 0;
        let mut last = self.height_of(0);
        let mut x: usize = 1;
        assert(sum_to(|i: int| if i >= 1 { abs_int(self.height(i - 1) - self.height(i)) } else { 0 }, 0) == 0);
        while x < BOARD_WIDTH
            invariant
                1 <= x <= 10,
                last == self.height(x - 1),
                last <= 64,
                unevenness == sum_to(|i: int| if i >= 1 { abs_int(self.height(i - 1) - self.height(i)) } else { 0 }, x as int),
                0 <= unevenness <= 64 * x,
            decreases 10 - x,
        {
            let h = self.height_of(x);
            let d = last as i32 - h as i32;
            unevenness = unevenness + if d >= 0 { d } else { -d };
            last = h;
            x += 1;
        }
        unevenness
    }

    /// One less than the number of wells, or 0 when there is at most one.
    pub fn wells(&self) -> (r: i32)
        ensures
            r == max_int(count_range(|x: int| self.is_well(x), 0, 10) - 1, 0),
            0 <= r <= 9,
    {
        let mut heights: [u32; 10] = [0u32; 10];
        let mut i: usize = 0;
        while i < BOARD_WIDTH
            invariant
                i <= 10,
                forall|j: int| 0 <= j < i ==> #[trigger] heights[j] == self.height(j) && heights[j] <= 64,
            decreases 10 - i,
        {
            heights[i] = self.height_of(i);
            i += 1;
        }
        let ghost p = |x: int| self.is_well(x);
        let mut count: u32 = 0;
        let mut idx: usize = 10;
        while idx > 0
            invariant
                idx <= 10,
                forall|j: int| 0 <= j < 10 ==> #[trigger] heights[j] == self.height(j) && heights[j] <= 64,
                p == (|x: int| self.is_well(x)),
                count == count_range(p, idx as int, 10),
                count <= 10 - idx,
            decreases idx,
        {
            idx = idx - 1;
            let left: u32 = if idx == 0 { 63 } else { heights[idx - 1] };
            let right: u32 = if idx == BOARD_WIDTH - 1 { 63 } else { heights[idx + 1] };
            let m = if left < right { left } else { right };
            if m.saturating_sub(heights[idx]) >= 3 {
                count = count + 1;
            }
            assert(count_range(p, idx as int, 10) == (if p(idx as int) { 1nat } else { 0nat }) + count_range(p, idx + 1, 10));
        }
        let w = count as i32 - 1;
        if w > 0 { w } else { 0 }
    }
}

} // verus!
