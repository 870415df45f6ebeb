use vstd::prelude::*;
use crate::bits::sum_to;
use crate::game::Game;
use crate::piece::Spin;
use crate::stats::{max_int, overstack, abs_int};

verus! {

/// The weights of the board evaluation.
#[derive(Clone, Copy, Debug)]
pub struct Weights {
    pub height: i32,
    pub upper_half_height: i32,
    pub upper_quarter_height: i32,
    pub center_height: i32,
    pub extra_wells: i32,
    pub clear_none: i32,
    pub clear_mini: i32,
    pub clear_normal: i32,
    pub sent: i32,
    pub b2b: i32,
    pub combo: i32,
    pub holes: i32,
    pub covered_holes: i32,
    pub overstacked_holes: i32,
    pub unevenness: i32,
}

pub const GENERAL_MULTIPLIER: i32 = 1000;

impl Weights {
    /// The weights in declaration order.
    pub open spec fn fields(&self) -> Seq<i32> {
        seq![
            self.height,
            self.upper_half_height,
            self.upper_quarter_height,
            self.center_height,
            self.extra_wells,
            self.clear_none,
            self.clear_mini,
            self.clear_normal,
            self.sent,
            self.b2b,
            self.combo,
            self.holes,
            self.covered_holes,
            self.overstacked_holes,
            self.unevenness,
        ]
    }

    /// These weights with each one moved by `change_factor` times its step
    /// (-1, 0 or 1), the steps given in declaration order.
    pub fn mutate(&self, change_factor: i32, steps: [i8; 15]) -> (r: Weights)
        requires
            forall|k: int|
                0 <= k < 15 ==> -1 <= #[trigger] steps[k] <= 1 && fits_i32(change_factor * steps[k]) && fits_i32(
                    self.fields()[k] + change_factor * steps[k],
                ),
        ensures
            forall|k: int| 0 <= k < 15 ==> #[trigger] r.fields()[k] == self.fields()[k] + change_factor * steps[k],
    {
        let r = Weights {
            height: self.height + change_factor * (steps[0] as i32),
            upper_half_height: self.upper_half_height + change_factor * (steps[1] as i32),
            upper_quarter_height: self.upper_quarter_height + change_factor * (steps[2] as i32),
            center_height: self.center_height + change_factor * (steps[3] as i32),
            extra_wells: self.extra_wells + change_factor * (steps[4] as i32),
            clear_none: self.clear_none + change_factor * (steps[5] as i32),
            clear_mini: self.clear_mini + change_factor * (steps[6] as i32),
            clear_normal: self.clear_normal + change_factor * (steps[7] as i32),
            sent: self.sent + change_factor * (steps[8] as i32),
            b2b: self.b2b + change_factor * (steps[9] as i32),
            combo: self.combo + change_factor * (steps[10] as i32),
            holes: self.holes + change_factor * (steps[11] as i32),
            covered_holes: self.covered_holes + change_factor * (steps[12] as i32),
            overstacked_holes: self.overstacked_holes + change_factor * (steps[13] as i32),
            unevenness: self.unevenness + change_factor * (steps[14] as i32),
        };
        assert forall|k: int| 0 <= k < 15 implies #[trigger] r.fields()[k] == self.fields()[k] + change_factor * steps[k] by {}
        r
    }
}



/// Hand-tuned weights.
pub open spec fn weights_handtuned() -> Weights {
    Weights {
        height: -50i32,
        upper_half_height: -150i32,
        upper_quarter_height: -300i32,
        center_height: -100i32,
        extra_wells: -100i32,
        clear_none: -70i32,
        clear_mini: 70i32,
        clear_normal: 140i32,
        sent: 0i32,
        b2b: 80i32,
        combo: 30i32,
        holes: -15i32,
        covered_holes: -60i32,
        overstacked_holes: -40i32,
        unevenness: -30i32,
    }
}

/// Weights that favour combos (four-wide play).
pub open spec fn weights_4w() -> Weights {
    Weights {
        height: -50i32,
        upper_half_height: -150i32,
        upper_quarter_height: -300i32,
        center_height: -100i32,
        extra_wells: -100i32,
        clear_none: 70i32,
        clear_mini: 140i32,
        clear_normal: 140i32,
        sent: 0i32,
        b2b: 0i32,
        combo: 10000i32,
        holes: 0i32,
        covered_holes: -60i32,
        overstacked_holes: -40i32,
        unevenness: -30i32,
    }
}

/// Hand-tuned weights.
pub fn handtuned() -> (w: Weights)
    ensures
        w == weights_handtuned(),
{
    Weights {
        height: -50,
        upper_half_height: -150,
        upper_quarter_height: -300,
        center_height: -100,
        extra_wells: -100,
        clear_none: -70,
        clear_mini: 70,
        clear_normal: 140,
        sent: 0,
        b2b: 80,
        combo: 30,
        holes: -15,
        covered_holes: -60,
        overstacked_holes: -40,
        unevenness: -30,
    }
}

/// Weights that favour combos (four-wide play).
pub fn four_wide() -> (w: Weights)
    ensures
        w == weights_4w(),
{
    Weights {
        height: -50,
        upper_half_height: -150,
        upper_quarter_height: -300,
        center_height: -100,
        extra_wells: -100,
        clear_none: 70,
        clear_mini: 140,
        clear_normal: 140,
        sent: 0,
        b2b: 0,
        combo: 10000,
        holes: 0,
        covered_holes: -60,
        overstacked_holes: -40,
        unevenness: -30,
    }
}

/// The weight of a clear of kind `c`.
pub open spec fn clear_weight(w: Weights, c: Spin) -> int {
    match c {
        Spin::NoSpin => w.clear_none as int,
        Spin::Mini => w.clear_mini as int,
        Spin::Normal => w.clear_normal as int,
    }
}

/// The terms of the evaluation of `state`, in the order they are added up.
/// `b2b_log` is 1000 ln(b2b + 2), rounded toward zero.
pub open spec fn eval_terms(w: Weights, state: Game, sent: u16, clears: Seq<Spin>, b2b_log: i32) -> Seq<int> {
    let b = state.board;
    let mh = b.max_height_between(0, 10);
    seq![
        (mh * 1000 / 20) * w.height,
        (max_int(mh - 20, 0) * 1000 / 10) * w.upper_half_height,
        (max_int(mh - 30, 0) * 1000 / 5) * w.upper_quarter_height,
        (b.max_height_between(3, 7) * 1000 / 20) * w.center_height,
        (max_int(count_wells(b) - 1, 0) * 1000) * w.extra_wells,
    ] + clears.map_values(|c: Spin| clear_weight(w, c) * 1000) + seq![
        (sent * 1000) * w.sent,
        b2b_log * w.b2b,
        ((state.combo + 1) * 1000) * w.combo,
        (sum_to(|x: int| b.holes(x), 10) * 1000) * w.holes,
        (sum_to(|x: int| b.covered(x), 10) * 1000) * w.covered_holes,
        (sum_to(|x: int| overstack(b.cols[x]), 10) * 1000) * w.overstacked_holes,
        (sum_to(|x: int| if x >= 1 { abs_int(b.height(x - 1) - b.height(x)) } else { 0 }, 10) * 1000) * w.unevenness,
    ]
}

pub open spec fn count_wells(b: crate::board::Board) -> int {
    crate::bits::count_range(|x: int| b.is_well(x), 0, 10) as int
}

/// The sum of the first `n` terms of `t`.
pub open spec fn partial(t: Seq<int>, n: int) -> int
    decreases n,
{
    if n <= 0 {
        0
    } else {
        partial(t, n - 1) + t[n - 1]
    }
}

pub open spec fn fits_i32(v: int) -> bool {
    i32::MIN <= v <= i32::MAX
}

/// Every term and every running total of the evaluation fits in an `i32`.
pub open spec fn eval_fits(t: Seq<int>) -> bool {
    &&& forall|i: int| 0 <= i < t.len() ==> fits_i32(#[trigger] t[i])
    &&& forall|n: int| 0 <= n <= t.len() ==> fits_i32(#[trigger] partial(t, n))
}

/// The weighted score of a board state: heights, wells, the clears made
/// on the way, the attack sent, back-to-back (through `b2b_log`), combo and
/// hole features, each scaled by 1000.
pub fn eval(weights: &Weights, state: &Game, sent: u16, clears: Vec<Spin>, b2b_log: i32) -> (r: i32)
    requires
        state.board.below_top_word(),
        eval_fits(eval_terms(*weights, *state, sent, clears@, b2b_log)),
    ensures
        r == partial(eval_terms(*weights, *state, sent, clears@, b2b_log), eval_terms(*weights, *state, sent, clears@, b2b_log).len() as int),
{
    let ghost t = eval_terms(*weights, *state, sent, clears@, b2b_log);
    let ghost nc = clears.len() as int;
    let b = &state.board;
    let mut score: i32 = 0;
    assert(partial(t, 0) == 0);
    assert(t[0] == (b.max_height_between(0, 10) * 1000 / 20) * weights.height);
    let mh = b.max_height();
    assert(fits_i32(partial(t, 1)) && fits_i32(t[0]));
    score = score + (mh * GENERAL_MULTIPLIER / 20) * weights.height;
    assert(t[1] == (max_int(b.max_height_between(0, 10) - 20, 0) * 1000 / 10) * weights.upper_half_height);
    assert(score == partial(t, 1));
    assert(fits_i32(partial(t, 2)) && fits_i32(t[1]));
    score = score + (b.upper_half_height() * GENERAL_MULTIPLIER / 10) * weights.upper_half_height;
    assert(t[2] == (max_int(b.max_height_between(0, 10) - 30, 0) * 1000 / 5) * weights.upper_quarter_height);
    assert(score == partial(t, 2));
    assert(fits_i32(partial(t, 3)) && fits_i32(t[2]));
    score = score + (b.upper_quarter_height() * GENERAL_MULTIPLIER / 5) * weights.upper_quarter_height;
    assert(t[3] == (b.max_height_between(3, 7) * 1000 / 20) * weights.center_height);
    assert(score == partial(t, 3));
    assert(fits_i32(partial(t, 4)) && fits_i32(t[3]));
    score = score + (b.center_height() * GENERAL_MULTIPLIER / 20) * weights.center_height;
    assert(t[4] == (max_int(count_wells(*b) - 1, 0) * 1000) * weights.extra_wells);
    assert(score == partial(t, 4));
    assert(fits_i32(partial(t, 5)) && fits_i32(t[4]));
    score = score + (b.wells() * GENERAL_MULTIPLIER) * weights.extra_wells;
    assert(score == partial(t, 5));
    let mut i: usize = 0;
    while i < clears.len()
        invariant
            i <= clears.len(),
            nc == clears.len(),
            t == eval_terms(*weights, *state, sent, clears@, b2b_log),
            eval_fits(t),
            score == partial(t, 5 + i),
        decreases clears.len() - i,
    {
        assert(t[5 + i] == clear_weight(*weights, clears@[i as int]) * 1000);
        assert(fits_i32(t[5 + i]));
        assert(fits_i32(partial(t, 5 + i + 1)));
        let v = match clears[i] {
            Spin::NoSpin => weights.clear_none,
            Spin::Mini => weights.clear_mini,
            Spin::Normal => weights.clear_normal,
        };
        score = score + v * GENERAL_MULTIPLIER;
        i += 1;
    }
    let ghost k = 5 + nc;
    assert(fits_i32(partial(t, k + 1)) && fits_i32(t[k]));
    score = score + (sent as i32 * GENERAL_MULTIPLIER) * weights.sent;
    assert(fits_i32(partial(t, k + 2)) && fits_i32(t[k + 1]));
    score = score + b2b_log * weights.b2b;
    assert(fits_i32(partial(t, k + 3)) && fits_i32(t[k + 2]));
    score = score + ((state.combo as i32 + 1) * GENERAL_MULTIPLIER) * weights.combo;
    assert(fits_i32(partial(t, k + 4)) && fits_i32(t[k + 3]));
    score = score + (b.count_holes() * GENERAL_MULTIPLIER) * weights.holes;
    assert(fits_i32(partial(t, k + 5)) && fits_i32(t[k + 4]));
    score = score + (b.covered_holes() * GENERAL_MULTIPLIER) * weights.covered_holes;
    assert(fits_i32(partial(t, k + 6)) && fits_i32(t[k + 5]));
    score = score + (b.overstacked_holes() * GENERAL_MULTIPLIER) * weights.overstacked_holes;
    assert(fits_i32(partial(t, k + 7)) && fits_i32(t[k + 6]));
    score = score + (b.unevenness() * GENERAL_MULTIPLIER) * weights.unevenness;
    score
}

} // verus!
