use vstd::prelude::*;
use crate::bits::{
    bit, col_bits, count_range, keep_rows, pad_rows, lemma_or_single, lemma_and_single,
    lemma_remove_row_bits, lemma_keep_rows_remove, lemma_pad_rows_remove, lemma_keep_rows_none,
    lemma_count_range_below, lemma_count_range_le, lemma_raise_bits, lemma_low_mask_pos,
};

verus! {

pub const BOARD_WIDTH: usize = 10;
pub const BOARD_HEIGHT: usize = 40;
pub const BOARD_BUFFER: usize = 20;
pub const BOARD_UPPER_HALF: usize = 20;
pub const BOARD_UPPER_QUARTER: usize = 30;

/// The playfield: one 64-bit word per column, bit `y` set when row `y`
/// (counted from the floor) of that column is filled; `garbage` counts the
/// garbage rows at the bottom.
#[derive(Clone, Copy, Debug)]
pub struct Board {
    pub cols: [u64; 10],
    pub garbage: u8,
}

impl Board {
    /// Whether cell (`x`, `y`) is filled.
    pub open spec fn filled(&self, x: int, y: int) -> bool {
        0 <= x < 10 && bit(self.cols[x], y)
    }

    /// An empty board with no garbage.
    pub fn new() -> (b: Board)
        ensures
            forall|x: int| 0 <= x < 10 ==> b.cols[x] == 0,
            forall|x: int, y: int| !#[trigger] b.filled(x, y),
            b.garbage == 0,
    {
        let b = Board { cols: [0u64; 10], garbage: 0 };
        assert forall|x: int, y: int| !#[trigger] b.filled(x, y) by {
            if 0 <= x < 10 && 0 <= y < 64 {
                let yy = y as u64;
                assert((0u64 >> yy) & 1u64 == 0u64) by (bit_vector);
            }
        }
        b
    }

    /// Fills cell (`x`, `y`).
    pub fn set(&mut self, x: usize, y: usize)
        requires
            x < BOARD_WIDTH,
            y < BOARD_HEIGHT,
        ensures
            final(self).cols[x as int] == old(self).cols[x as int] | (1u64 << (y as u64)),
            forall|i: int| 0 <= i < 10 && i != x ==> final(self).cols[i] == old(self).cols[i],
            final(self).garbage == old(self).garbage,
            forall|i: int, j: int|
                #[trigger] final(self).filled(i, j) <==> (old(self).filled(i, j) || (i == x && j == y)),
    {
        let ghost pre = *self;
        self.cols[x] = self.cols[x] | (1u64 << (y as u64));
        assert forall|i: int, j: int|
            #[trigger] self.filled(i, j) <==> (pre.filled(i, j) || (i == x && j == y)) by {
            if 0 <= i < 10 && 0 <= j < 64 && i == x {
                lemma_or_single(pre.cols[i], y as u64, j as u64);
            }
        }
    }

    /// Whether cell (`x`, `y`) is filled or outside the 10 x 40 field.
    pub open spec fn occupied(&self, x: int, y: int) -> bool {
        x < 0 || x >= 10 || y < 0 || y >= 40 || self.filled(x, y)
    }

    /// Whether cell (`x`, `y`) is filled; every cell outside the
    /// 10 x 40 field counts as filled.
    pub fn is_occupied(&self, x: i8, y: i8) -> (r: bool)
        ensures
            r == self.occupied(x as int, y as int),
    {
        if x < 0 || x >= BOARD_WIDTH as i8 || y < 0 || y >= BOARD_HEIGHT as i8 {
            return true;
        }
        let x = x as usize;
        let y = y as usize;
        proof {
            lemma_and_single(self.cols[x as int], y as u64);
        }
        (self.cols[x] & (1u64 << (y as u64))) != 0
    }

    /// Whether every column has row `y` filled.
    pub open spec fn row_full(&self, y: int) -> bool {
        forall|x: int| 0 <= x < 10 ==> #[trigger] bit(self.cols[x], y)
    }

    /// The rows that `clear(from, to)` deletes: the full rows from `from`
    /// to `to`.
    pub open spec fn full_rows_between(&self, from: int, to: int) -> spec_fn(int) -> bool {
        |r: int| from <= r <= to && self.row_full(r)
    }

    fn row_is_full(&self, y: u8) -> (r: bool)
        requires
            y < 64,
        ensures
            r == self.row_full(y as int),
    {
        let mut x: usize = 0;
        while x < BOARD_WIDTH
            invariant
                x <= 10,
                y < 64,
                forall|i: int| 0 <= i < x ==> #[trigger] bit(self.cols[i], y as int),
            decreases 10 - x,
        {
            proof {
                lemma_and_single(self.cols[x as int], y as u64);
            }
            if self.cols[x] & (1u64 << (y as u64)) == 0 {
                assert(!bit(self.cols[x as int], y as int));
                return false;
            }
            x += 1;
        }
        true
    }

    /// Deletes every full row from `from` to `to`: rows above a deleted row
    /// drop down and empty rows enter at the top. Returns how many rows were
    /// deleted and whether any of them lay in the garbage, whose height drops
    /// by the number of deleted garbage rows.
    pub fn clear(&mut self, from: u8, to: u8) -> (r: (u8, bool))
        requires
            to < 255,
            from <= to ==> to < 64,
            from <= to && to == 63 ==> !old(self).row_full(63),
        ensures
            forall|x: int|
                0 <= x < 10 ==> col_bits(#[trigger] final(self).cols[x]) == pad_rows(
                    keep_rows(col_bits(old(self).cols[x]), old(self).full_rows_between(from as int, to as int)),
                ),
            r.0 == count_range(old(self).full_rows_between(from as int, to as int), from as int, to + 1),
            final(self).garbage == old(self).garbage - count_range(
                |y: int| old(self).full_rows_between(from as int, to as int)(y) && y < old(self).garbage,
                from as int,
                to + 1,
            ),
            r.1 == exists|y: int|
                #[trigger] old(self).full_rows_between(from as int, to as int)(y) && y < old(self).garbage,
    {
        let ghost orig = *self;
        let ghost del = orig.full_rows_between(from as int, to as int);
        let ghost gdel = |y: int| del(y) && y < orig.garbage;
        let mut cleared: u8 = 0;
        let mut garbage_cleared = false;
        let mut y: u8 = to + 1;
        proof {
            assert forall|x: int| 0 <= x < 10 implies col_bits(#[trigger] self.cols[x]) == pad_rows(
                keep_rows(col_bits(orig.cols[x]), |r: int| y <= r && del(r))) by {
                lemma_keep_rows_none(col_bits(orig.cols[x]), |r: int| y <= r && del(r));
                assert(pad_rows(col_bits(orig.cols[x])) =~= col_bits(orig.cols[x]));
            }
        }
        while y > from
            invariant
                y <= to + 1,
                from <= y || y == to + 1,
                to < 255,
                from <= to ==> to < 64,
                from <= to && to == 63 ==> !orig.row_full(63),
                del == orig.full_rows_between(from as int, to as int),
                gdel == (|r: int| del(r) && r < orig.garbage),
                forall|x: int| 0 <= x < 10 ==> col_bits(#[trigger] self.cols[x]) == pad_rows(
                    keep_rows(col_bits(orig.cols[x]), |r: int| y <= r && del(r))),
                forall|x: int, r: int| 0 <= x < 10 && r < y ==> #[trigger] bit(self.cols[x], r) == bit(orig.cols[x], r),
                cleared == count_range(del, y as int, to + 1),
                self.garbage == orig.garbage - count_range(gdel, y as int, to + 1),
                garbage_cleared == exists|r: int| y <= r && #[trigger] gdel(r),
            decreases y,
        {
            y = y - 1;
            proof {
                lemma_count_range_le(del, y + 1, to + 1);
                lemma_count_range_below(gdel, y + 1, to + 1, orig.garbage as int);
            }
            let full = self.row_is_full(y);
            proof {
                assert(full == orig.row_full(y as int)) by {
                    if full {
                        assert forall|x: int| 0 <= x < 10 implies #[trigger] bit(orig.cols[x], y as int) by {
                            assert(bit(self.cols[x], y as int));
                        }
                    } else {
                        let x = choose|x: int| 0 <= x < 10 && !#[trigger] bit(self.cols[x], y as int);
                        assert(!bit(orig.cols[x], y as int));
                    }
                }
            }
            let ghost pre = *self;
            let ghost old_del = |r: int| y + 1 <= r && del(r);
            let ghost new_del = |r: int| y <= r && del(r);
            proof {
                assert(self.garbage <= orig.garbage);
                if y < orig.garbage {
                    assert(count_range(gdel, y + 1, to + 1) <= orig.garbage - (y + 1));
                    assert(y < self.garbage);
                }
                if full && y < orig.garbage {
                    assert(gdel(y as int));
                }
                if !(full && y < orig.garbage) {
                    assert(!gdel(y as int));
                }
                assert(count_range(gdel, y as int, to + 1) == (if gdel(y as int) { 1nat } else { 0nat })
                    + count_range(gdel, y + 1, to + 1));
                assert(count_range(del, y as int, to + 1) == (if del(y as int) { 1nat } else { 0nat })
                    + count_range(del, y + 1, to + 1));
            }
            if full {
                cleared = cleared + 1;
                if y < self.garbage {
                    garbage_cleared = true;
                    self.garbage = self.garbage - 1;
                }
                let ghost g1 = self.garbage;
                let mut cx: usize = 0;
                while cx < BOARD_WIDTH
                    invariant
                        cx <= 10,
                        y < 63,
                        forall|x: int| 0 <= x < cx ==> col_bits(#[trigger] self.cols[x]) == col_bits(pre.cols[x]).remove(y as int).push(false),
                        forall|x: int| cx <= x < 10 ==> #[trigger] self.cols[x] == pre.cols[x],
                        self.garbage == g1,
                    decreases 10 - cx,
                {
                    proof {
                        let yy = y as u64;
                        assert(1u64 << yy >= 1) by (bit_vector)
                            requires
                                yy < 63,
                        ;
                    }
                    let low_mask = (1u64 << (y as u64)) - 1;
                    let low = self.cols[cx] & low_mask;
                    let high = self.cols[cx] >> ((y + 1) as u64);
                    let c = self.cols[cx];
                    self.cols[cx] = (high << (y as u64)) | low;
                    proof {
                        assert forall|r: int| 0 <= r < 64 implies bit(self.cols[cx as int], r) == (
                            if r < y { bit(c, r) } else if r < 63 { bit(c, r + 1) } else { false }) by {
                            lemma_remove_row_bits(c, y as u64, (y + 1) as u64, low_mask, r as u64, (r + 1) as u64);
                        }
                        assert(col_bits(self.cols[cx as int]) =~= col_bits(c).remove(y as int).push(false));
                    }
                    cx += 1;
                }
            }
            proof {
                assert forall|x: int| 0 <= x < 10 implies col_bits(#[trigger] self.cols[x]) == pad_rows(
                    keep_rows(col_bits(orig.cols[x]), new_del)) by {
                    let s = col_bits(orig.cols[x]);
                    if full {
                        assert(new_del =~= (|r: int| old_del(r) || r == y));
                        lemma_keep_rows_remove(s, old_del, y as int);
                        crate::bits::lemma_keep_rows_len(s, old_del);
                        lemma_pad_rows_remove(keep_rows(s, old_del), y as int);
                    } else {
                        assert(new_del =~= old_del);
                    }
                }
                assert forall|x: int, r: int| 0 <= x < 10 && r < y implies #[trigger] bit(self.cols[x], r) == bit(orig.cols[x], r) by {
                    if full && 0 <= r {
                        assert(col_bits(self.cols[x])[r] == col_bits(pre.cols[x])[r]);
                    }
                }
                if garbage_cleared {
                    if !(exists|r: int| y + 1 <= r && #[trigger] gdel(r)) {
                        assert(gdel(y as int));
                    }
                } else {
                    assert forall|r: int| y <= r implies !#[trigger] gdel(r) by {
                        if r == y {
                            assert(!(full && y < pre.garbage) );
                        }
                    }
                }
            }
        }
        proof {
            assert((|r: int| y <= r && del(r)) =~= del);
            if !garbage_cleared {
                assert forall|r: int| !(#[trigger] del(r) && r < orig.garbage) by {
                    if r >= y {
                        assert(!gdel(r));
                    }
                }
            } else {
                let r = choose|r: int| y <= r && #[trigger] gdel(r);
                assert(del(r) && r < orig.garbage);
            }
        }
        (cleared, garbage_cleared)
    }

    /// Pushes `amount` garbage rows in from the floor: every row rises by
    /// `amount` (rows passing row 39 are lost) and the new rows are filled
    /// except at `column`. The garbage height grows by `amount`, capped at 40.
    pub fn insert_garbage(&mut self, amount: u8, column: u8)
        requires
            column < 10,
            amount < 64,
        ensures
            amount == 0 ==> *final(self) == *old(self),
            amount > 0 ==> final(self).garbage == if old(self).garbage + amount > 40 { 40 } else {
                old(self).garbage + amount
            },
            amount > 0 ==> forall|x: int, y: int|
                0 <= x < 10 && 0 <= y < 64 ==> #[trigger] final(self).filled(x, y) == (if y < amount {
                    x != column
                } else {
                    y < 40 && old(self).filled(x, y - amount)
                }),
    {
        if amount == 0 {
            return;
        }
        let g = self.garbage.saturating_add(amount);
        self.garbage = if g < BOARD_HEIGHT as u8 { g } else { BOARD_HEIGHT as u8 };
        let all_mask: u64 = 0xff_ffff_ffff;
        proof {
            lemma_low_mask_pos(amount as u64);
        }
        let bottom_mask = (1u64 << (amount as u64)) - 1;
        let ghost pre = *self;
        let mut x: usize = 0;
        while x < BOARD_WIDTH
            invariant
                x <= 10,
                0 < amount < 64,
                column < 10,
                all_mask == 0xff_ffff_ffffu64,
                bottom_mask == (1u64 << (amount as u64)) - 1,
                self.garbage == pre.garbage,
                forall|i: int| x <= i < 10 ==> #[trigger] self.cols[i] == pre.cols[i],
                forall|i: int, y: int|
                    0 <= i < x && 0 <= y < 64 ==> #[trigger] self.filled(i, y) == (if y < amount {
                        i != column
                    } else {
                        y < 40 && pre.filled(i, y - amount)
                    }),
            decreases 10 - x,
        {
            let c = self.cols[x];
            let ghost before = *self;
            let shifted = (c << (amount as u64)) & all_mask;
            self.cols[x] = if x == column as usize { shifted } else { shifted | bottom_mask };
            proof {
                assert forall|y: int| 0 <= y < 64 implies #[trigger] self.filled(x as int, y) == (if y < amount {
                    x != column
                } else {
                    y < 40 && pre.filled(x as int, y - amount)
                }) by {
                    let ra: u64 = if y >= amount { (y - amount) as u64 } else { 0 };
                    lemma_raise_bits(c, amount as u64, all_mask, bottom_mask, y as u64, ra);
                    if y >= amount {
                        assert(pre.filled(x as int, y - amount) == ((c >> ra) & 1u64 == 1u64));
                    }
                }
                assert forall|i: int, y: int|
                    0 <= i < x + 1 && 0 <= y < 64 implies #[trigger] self.filled(i, y) == (if y < amount {
                        i != column
                    } else {
                        y < 40 && pre.filled(i, y - amount)
                    }) by {
                    if i < x {
                        assert(self.cols[i] == before.cols[i]);
                        assert(before.filled(i, y) == self.filled(i, y));
                    }
                }
            }
            x += 1;
        }
    }

    /// Whether some column has its top row (row 39) filled.
    pub fn is_pc(&self) -> (r: bool)
        ensures
            r == exists|x: int| 0 <= x < 10 && #[trigger] self.filled(x, 39),
    {
        let mut i: usize = 0;
        while i < BOARD_WIDTH
            invariant
                i <= 10,
                forall|x: int| 0 <= x < i ==> !#[trigger] self.filled(x, 39),
            decreases 10 - i,
        {
            proof {
                lemma_and_single(self.cols[i as int], 39u64);
            }
            if self.cols[i] & (1u64 << 39u64) != 0 {
                assert(self.filled(i as int, 39));
                return true;
            }
            i += 1;
        }
        false
    }
}

} // verus!
