use vstd::prelude::*;
use crate::bits::{bit, col_height, count_range, lemma_col_height, sum_to};
use crate::board::Board;
use crate::eval::{clear_weight, eval_terms, partial, Weights};
use crate::piece::Spin;
use crate::game::{cancel, down, up, raise, rest_y, slide_left, slide_right, spawn_x, spawn_y, Game, Garbage};
use crate::keyfinder::{after_move, Move};
use crate::piece::{cells_blocked, Falling};
use crate::game::{GameConfig, tst_or_fin};
use crate::piece::SpinBonuses;
use crate::damage::base_rows;
use crate::piece::Mino;
use crate::queue::{bag7_cycle, next_bag};
use crate::rng::{lcg, seed_from, seed_ok, shuffle_from, swap_seq, MAX_FLOAT, MODULUS};

verus! {

/// Each weight of `w3` is the sum of the weights of `w1` and `w2`.
pub open spec fn weights_add_up(w1: Weights, w2: Weights, w3: Weights) -> bool {
    &&& w3.height == w1.height + w2.height
    &&& w3.upper_half_height == w1.upper_half_height + w2.upper_half_height
    &&& w3.upper_quarter_height == w1.upper_quarter_height + w2.upper_quarter_height
    &&& w3.center_height == w1.center_height + w2.center_height
    &&& w3.extra_wells == w1.extra_wells + w2.extra_wells
    &&& w3.clear_none == w1.clear_none + w2.clear_none
    &&& w3.clear_mini == w1.clear_mini + w2.clear_mini
    &&& w3.clear_normal == w1.clear_normal + w2.clear_normal
    &&& w3.sent == w1.sent + w2.sent
    &&& w3.b2b == w1.b2b + w2.b2b
    &&& w3.combo == w1.combo + w2.combo
    &&& w3.holes == w1.holes + w2.holes
    &&& w3.covered_holes == w1.covered_holes + w2.covered_holes
    &&& w3.overstacked_holes == w1.overstacked_holes + w2.overstacked_holes
    &&& w3.unevenness == w1.unevenness + w2.unevenness
}

proof fn lemma_distribute(f: int, a: int, b: int)
    ensures
        f * (a + b) == f * a + f * b,
{
    vstd::arithmetic::mul::lemma_mul_is_distributive_add(f, a, b);
}

proof fn lemma_partial_add(t1: Seq<int>, t2: Seq<int>, t3: Seq<int>, n: int)
    requires
        t1.len() == t2.len() == t3.len(),
        forall|i: int| 0 <= i < t3.len() ==> #[trigger] t3[i] == t1[i] + t2[i],
        0 <= n <= t3.len(),
    ensures
        partial(t3, n) == partial(t1, n) + partial(t2, n),
    decreases n,
{
    if n > 0 {
        lemma_partial_add(t1, t2, t3, n - 1);
    }
}

/// The evaluation is linear in the weights: every term is a feature of the
/// state times one weight, so evaluating with summed weights gives the sum
/// of the two evaluations (each running total included).
pub proof fn law_eval_linear(
    w1: Weights,
    w2: Weights,
    w3: Weights,
    state: Game,
    sent: u16,
    clears: Seq<Spin>,
    b2b_log: i32,
)
    requires
        weights_add_up(w1, w2, w3),
    ensures
        eval_terms(w3, state, sent, clears, b2b_log).len() == eval_terms(w1, state, sent, clears, b2b_log).len(),
        forall|n: int|
            0 <= n <= eval_terms(w3, state, sent, clears, b2b_log).len() ==> #[trigger] partial(
                eval_terms(w3, state, sent, clears, b2b_log),
                n,
            ) == partial(eval_terms(w1, state, sent, clears, b2b_log), n) + partial(
                eval_terms(w2, state, sent, clears, b2b_log),
                n,
            ),
{
    let t1 = eval_terms(w1, state, sent, clears, b2b_log);
    let t2 = eval_terms(w2, state, sent, clears, b2b_log);
    let t3 = eval_terms(w3, state, sent, clears, b2b_log);
    assert forall|f: int, a: int, b: int| #[trigger] (f * (a + b)) == f * a + f * b by {
        lemma_distribute(f, a, b);
    }
    assert forall|i: int| 0 <= i < t3.len() implies #[trigger] t3[i] == t1[i] + t2[i] by {
        let nc = clears.len() as int;
        if 5 <= i < 5 + nc {
            let c = clears[i - 5];
            assert(clear_weight(w3, c) == clear_weight(w1, c) + clear_weight(w2, c));
        }
    }
    assert forall|n: int| 0 <= n <= t3.len() implies #[trigger] partial(t3, n) == partial(t1, n) + partial(t2, n) by {
        lemma_partial_add(t1, t2, t3, n);
    }
}

/// The board `new` is `old` with `amount` garbage rows pushed in from the
/// floor, the hole at `column` (what `Board::insert_garbage` does for a
/// positive amount).
pub open spec fn garbage_pushed(old: Board, new: Board, amount: u8, column: u8) -> bool {
    forall|x: int, y: int|
        0 <= x < 10 && 0 <= y < 64 ==> #[trigger] new.filled(x, y) == (if y < amount {
            x != column
        } else {
            y < 40 && old.filled(x, y - amount)
        })
}

/// The holes of a column word: empty rows below its highest filled row.
pub open spec fn word_holes(c: u64) -> int {
    count_range(|y: int| y < col_height(c) && !bit(c, y), 0, 64) as int
}

proof fn lemma_count_split(p: spec_fn(int) -> bool, lo: int, mid: int, hi: int)
    requires
        lo <= mid <= hi,
    ensures
        count_range(p, lo, hi) == count_range(p, lo, mid) + count_range(p, mid, hi),
    decreases mid - lo,
{
    if lo < mid {
        lemma_count_split(p, lo + 1, mid, hi);
    }
}

proof fn lemma_count_shift(p: spec_fn(int) -> bool, q: spec_fn(int) -> bool, lo: int, hi: int, d: int)
    requires
        forall|y: int| lo <= y < hi ==> #[trigger] q(y) == p(y + d),
    ensures
        count_range(q, lo, hi) == count_range(p, lo + d, hi + d),
    decreases hi - lo,
{
    if lo < hi {
        lemma_count_shift(p, q, lo + 1, hi, d);
    }
}

proof fn lemma_count_const(p: spec_fn(int) -> bool, lo: int, hi: int, v: bool)
    requires
        lo <= hi,
        forall|y: int| lo <= y < hi ==> #[trigger] p(y) == v,
    ensures
        count_range(p, lo, hi) == if v { hi - lo } else { 0 },
    decreases hi - lo,
{
    if lo < hi {
        lemma_count_const(p, lo + 1, hi, v);
    }
}

/// A word whose top filled row is `h - 1` has height `h`.
proof fn lemma_height_is(c: u64, h: int)
    requires
        0 <= h <= 64,
        h > 0 ==> bit(c, h - 1),
        forall|y: int| h <= y ==> !#[trigger] bit(c, y),
    ensures
        col_height(c) == h,
{
    lemma_col_height(c);
    let ch = col_height(c);
    if ch < h {
        assert(bit(c, h - 1));
    }
    if ch > h {
        assert(bit(c, ch - 1));
    }
}

/// One column of a garbage push: its height and its holes.
proof fn lemma_column_push(c: u64, n: u64, a: int, hole: bool)
    requires
        1 <= a,
        col_height(c) + a <= 40,
        forall|y: int| 0 <= y < 64 ==> #[trigger] bit(n, y) == (if y < a { !hole } else { y < 40 && bit(c, y - a) }),
    ensures
        col_height(n) == if col_height(c) > 0 {
            col_height(c) + a
        } else if hole {
            0
        } else {
            a
        },
        word_holes(n) == word_holes(c) + if hole && col_height(c) > 0 { a } else { 0 },
{
    lemma_col_height(c);
    let ho = col_height(c);
    let hn = if ho > 0 { ho + a } else if hole { 0 } else { a };
    assert forall|y: int| hn <= y implies !#[trigger] bit(n, y) by {
        if 0 <= y < 64 && y >= a {
            assert(!bit(c, y - a));
        }
    }
    if ho > 0 {
        assert(bit(n, ho + a - 1));
    } else if !hole {
        assert(bit(n, a - 1));
    }
    lemma_height_is(n, hn);
    let po = |y: int| y < ho && !bit(c, y);
    let pn = |y: int| y < col_height(n) && !bit(n, y);
    if ho == 0 {
        lemma_count_const(po, 0, 64, false);
        lemma_count_const(pn, 0, 64, false);
    } else {
        lemma_count_split(pn, 0, a, 64);
        lemma_count_const(pn, 0, a, hole);
        lemma_count_shift(po, pn, a, 64, -a);
        lemma_count_split(po, 0, 64 - a, 64);
        lemma_count_const(po, 64 - a, 64, false);
    }
}

proof fn lemma_max_between_bounds(b: Board, lo: int, hi: int)
    requires
        lo <= hi,
    ensures
        b.max_height_between(lo, hi) >= 0,
        forall|x: int| lo <= x < hi ==> #[trigger] b.height(x) <= b.max_height_between(lo, hi),
        b.max_height_between(lo, hi) == 0 || exists|x: int| lo <= x < hi && #[trigger] b.height(x) == b.max_height_between(lo, hi),
    decreases hi - lo,
{
    if lo < hi {
        lemma_max_between_bounds(b, lo, hi - 1);
    }
}

proof fn lemma_max_between_le(b: Board, lo: int, hi: int, m: int)
    requires
        m >= 0,
        forall|x: int| lo <= x < hi ==> #[trigger] b.height(x) <= m,
    ensures
        b.max_height_between(lo, hi) <= m,
    decreases hi - lo,
{
    if lo < hi {
        lemma_max_between_le(b, lo, hi - 1, m);
    }
}

proof fn lemma_sum_holes(o: Board, nb: Board, column: int, a: int, n: int)
    requires
        0 <= n <= 10,
        forall|x: int| 0 <= x < 10 ==> #[trigger] nb.holes(x) == o.holes(x) + if x == column && o.cols[x] != 0 { a } else { 0 },
    ensures
        sum_to(|x: int| nb.holes(x), n) == sum_to(|x: int| o.holes(x), n) + if 0 <= column < n && o.cols[column] != 0 {
            a
        } else {
            0
        },
    decreases n,
{
    if n > 0 {
        lemma_sum_holes(o, nb, column, a, n - 1);
    }
}

/// Pushing garbage under a board that stays within the field raises the
/// tallest column by the amount pushed, and adds that amount to the holes
/// exactly when the hole column held something (its filled cells now stand
/// on the empty hole cells); every other column keeps its holes.
pub proof fn law_garbage_heights_and_holes(old: Board, new: Board, amount: u8, column: u8)
    requires
        column < 10,
        amount >= 1,
        old.max_height_between(0, 10) + amount <= 40,
        garbage_pushed(old, new, amount, column),
    ensures
        new.max_height_between(0, 10) == old.max_height_between(0, 10) + amount,
        sum_to(|x: int| new.holes(x), 10) == sum_to(|x: int| old.holes(x), 10) + if old.cols[column as int] != 0 {
            amount as int
        } else {
            0
        },
{
    let a = amount as int;
    let m = old.max_height_between(0, 10);
    lemma_max_between_bounds(old, 0, 10);
    assert forall|x: int| 0 <= x < 10 implies #[trigger] new.height(x) == (if old.height(x) > 0 {
        old.height(x) + a
    } else if x == column {
        0
    } else {
        a
    }) && new.holes(x) == old.holes(x) + if x == column && old.cols[x] != 0 { a } else { 0 } by {
        assert(old.height(x) <= m);
        assert forall|y: int| 0 <= y < 64 implies #[trigger] bit(new.cols[x], y) == (if y < a {
            !(x == column)
        } else {
            y < 40 && bit(old.cols[x], y - a)
        }) by {
            assert(new.filled(x, y) == (if y < amount { x != column } else { y < 40 && old.filled(x, y - amount) }));
        }
        lemma_column_push(old.cols[x], new.cols[x], a, x == column);
        lemma_col_height(old.cols[x]);
        assert((|y: int| y < new.height(x) && !bit(new.cols[x], y)) =~= (|y: int| y < col_height(new.cols[x]) && !bit(
            new.cols[x],
            y,
        )));
        assert((|y: int| y < old.height(x) && !bit(old.cols[x], y)) =~= (|y: int| y < col_height(old.cols[x]) && !bit(
            old.cols[x],
            y,
        )));
    }
    lemma_max_between_bounds(new, 0, 10);
    assert forall|x: int| 0 <= x < 10 implies #[trigger] new.height(x) <= m + a by {
        assert(old.height(x) <= m);
    }
    lemma_max_between_le(new, 0, 10, m + a);
    if m > 0 {
        let x = choose|x: int| 0 <= x < 10 && #[trigger] old.height(x) == m;
        assert(new.height(x) == m + a);
    } else {
        let x: int = if column == 0 { 1 } else { 0 };
        assert(new.height(x) == a);
    }
    lemma_sum_holes(old, new, column as int, a, 10);
}

/// The total number of garbage rows queued in `q`.
pub open spec fn total_rows(q: Seq<Garbage>) -> int
    decreases q.len(),
{
    if q.len() == 0 {
        0
    } else {
        q[0].amt + total_rows(q.drop_first())
    }
}

/// An attack cancels queued garbage one row for one row: what it takes from
/// the queue plus what is left of it is the attack, and something is left
/// over only once the queue is empty.
pub proof fn law_cancel_conserves(q: Seq<Garbage>, sent: int)
    requires
        sent >= 0,
    ensures
        ({
            let (q2, left) = cancel(q, sent);
            &&& 0 <= left <= sent
            &&& total_rows(q) - total_rows(q2) == sent - left
            &&& left > 0 ==> q2.len() == 0
        }),
    decreases q.len(),
{
    if sent <= 0 || q.len() == 0 {
    } else if q[0].amt > sent {
        let q2 = q.update(0, Garbage { amt: (q[0].amt - sent) as u8, ..q[0] });
        assert(q2.drop_first() =~= q.drop_first());
    } else {
        law_cancel_conserves(q.drop_first(), sent - q[0].amt);
    }
}

/// A row of pushed-in garbage is full except for exactly one hole, at the
/// garbage's column.
pub proof fn law_garbage_row_hole(f: spec_fn(int, int) -> bool, g: Garbage, x: int, y: int)
    requires
        g.amt > 0,
        0 <= y < g.amt,
    ensures
        raise(f, g)(x, y) == (x != g.col),
{
}

/// The collision map of a game is exact: in the field, the falling piece
/// collides at (`x`, `y`) exactly where one of its cells would overlap a
/// filled cell or leave the board.
pub proof fn law_fresh_map_hits(g: Game, x: int, y: int)
    requires
        g.map_fresh(),
        g.piece.rot < 4,
        0 <= x < 12,
        0 <= y < 40,
    ensures
        g.hits(x, y) == cells_blocked(g.board.cols, g.cells(), x, y),
{
}

/// A step left that succeeds is undone by a step right from where the
/// piece then stands.
pub proof fn law_left_then_right(g: Game, config: GameConfig)
    requires
        g.piece.rot < 4,
        !g.hits(g.piece.x as int, g.piece.y as int),
        after_move(g, Move::Left, config).1,
    ensures
        after_move(after_move(g, Move::Left, config).0, Move::Right, config) == (g, true),
{
    let g1 = after_move(g, Move::Left, config).0;
    assert(up(down(g.piece.x)) == g.piece.x);
    assert(g1.piece == Falling { x: down(g.piece.x), ..g.piece });
    assert((Game { piece: Falling { x: up(g1.piece.x), ..g1.piece }, ..g1 }) == g);
}

/// A step right that succeeds is undone by a step left from where the
/// piece then stands.
pub proof fn law_right_then_left(g: Game, config: GameConfig)
    requires
        g.piece.rot < 4,
        !g.hits(g.piece.x as int, g.piece.y as int),
        after_move(g, Move::Right, config).1,
    ensures
        after_move(after_move(g, Move::Right, config).0, Move::Left, config) == (g, true),
{
    let g1 = after_move(g, Move::Right, config).0;
    assert(down(up(g.piece.x)) == g.piece.x);
    assert(g1.piece == Falling { x: up(g.piece.x), ..g.piece });
    assert((Game { piece: Falling { x: down(g1.piece.x), ..g1.piece }, ..g1 }) == g);
}

proof fn lemma_rest_y_settles(cm: crate::piece::CollisionMap, x: u8, y: int, rot: int)
    requires
        y >= 0,
    ensures
        rest_y(cm, x, rest_y(cm, x, y, rot), rot) == rest_y(cm, x, y, rot),
    decreases y,
{
    if y > 0 && !cm.hits(x as int, y - 1, rot) {
        lemma_rest_y_settles(cm, x, y - 1, rot);
    }
}

proof fn lemma_slide_left_settles(cm: crate::piece::CollisionMap, x: int, y: int, rot: int)
    ensures
        slide_left(cm, slide_left(cm, x, y, rot), y, rot) == slide_left(cm, x, y, rot),
    decreases x,
{
    if !(x <= 0 || cm.hits(x - 1, y, rot)) {
        lemma_slide_left_settles(cm, x - 1, y, rot);
    }
}

proof fn lemma_slide_right_settles(cm: crate::piece::CollisionMap, x: int, y: int, rot: int)
    ensures
        slide_right(cm, slide_right(cm, x, y, rot), y, rot) == slide_right(cm, x, y, rot),
    decreases 255 - x,
{
    if !(x >= 255 || cm.hits(x + 1, y, rot)) {
        lemma_slide_right_settles(cm, x + 1, y, rot);
    }
}

/// A second soft drop does nothing: the piece already rests.
pub proof fn law_soft_drop_settles(g: Game, config: GameConfig)
    requires
        g.piece.rot < 4,
    ensures
        ({
            let g1 = after_move(g, Move::SoftDrop, config).0;
            after_move(g1, Move::SoftDrop, config) == (g1, false)
        }),
{
    let p = g.piece;
    crate::game::lemma_rest_y_bounds(g.collision_map, p.x, p.y as int, p.rot as int);
    lemma_rest_y_settles(g.collision_map, p.x, p.y as int, p.rot as int);
    let g1 = after_move(g, Move::SoftDrop, config).0;
    assert((Game { piece: Falling { y: g1.piece.y, ..g1.piece }, ..g1 }) == g1);
}

/// A second shift to the left wall does nothing.
pub proof fn law_das_left_settles(g: Game, config: GameConfig)
    requires
        g.piece.rot < 4,
    ensures
        ({
            let g1 = after_move(g, Move::DasLeft, config).0;
            after_move(g1, Move::DasLeft, config) == (g1, false)
        }),
{
    let p = g.piece;
    crate::keyfinder::lemma_slide_left_bound(g.collision_map, p.x as int, p.y as int, p.rot as int);
    lemma_slide_left_settles(g.collision_map, p.x as int, p.y as int, p.rot as int);
    let g1 = after_move(g, Move::DasLeft, config).0;
    assert((Game { piece: Falling { x: g1.piece.x, ..g1.piece }, ..g1 }) == g1);
}

/// A second shift to the right wall does nothing.
pub proof fn law_das_right_settles(g: Game, config: GameConfig)
    requires
        g.piece.rot < 4,
        g.piece.x < 255,
    ensures
        ({
            let g1 = after_move(g, Move::DasRight, config).0;
            after_move(g1, Move::DasRight, config) == (g1, false)
        }),
{
    let p = g.piece;
    crate::keyfinder::lemma_slide_right_bound(g.collision_map, p.x as int, p.y as int, p.rot as int);
    lemma_slide_right_settles(g.collision_map, p.x as int, p.y as int, p.rot as int);
    let g1 = after_move(g, Move::DasRight, config).0;
    assert((Game { piece: Falling { x: g1.piece.x, ..g1.piece }, ..g1 }) == g1);
}

/// Holding twice with a piece in the hold gives the hold back its piece and
/// brings the falling piece back, at its spawn point and in the rotation it
/// had; nothing else changes.
pub proof fn law_hold_twice(g: Game)
    requires
        g.hold is Some,
    ensures
        g.after_hold().after_hold() == (Game {
            piece: Falling {
                x: spawn_x(g.minos.data(g.piece.mino).width),
                y: spawn_y(),
                rot: g.piece.rot,
                mino: g.piece.mino,
                shape: g.minos.data(g.piece.mino),
            },
            ..g
        }),
{
}

/// A drop clears no more rows than the piece spans.
pub proof fn law_lines_cleared_span(g: Game)
    requires
        g.low_row() <= g.high_row() + 1,
    ensures
        g.lines_cleared() <= g.high_row() + 1 - g.low_row(),
{
    crate::bits::lemma_count_range_le(g.completed_rows(), g.low_row(), g.high_row() + 1);
}

proof fn lemma_shuffle_from_multiset<T>(a: Seq<T>, s: u64, i: int)
    requires
        i < a.len(),
    ensures
        shuffle_from(a, s, i).to_multiset() == a.to_multiset(),
    decreases i,
{
    if i >= 1 {
        let s1 = lcg(s);
        let j = crate::draw::float_pick(s1, i);
        if 0 <= j < a.len() {
            crate::rng::lemma_swap_multiset(a, i, j);
        }
        crate::rng::lemma_swap_seq_len(a, i, j);
        lemma_shuffle_from_multiset(swap_seq(a, i, j), s1, i - 1);
    }
}

/// Every bag holds each of the seven minos exactly once, whatever the
/// generator's state.
pub proof fn law_bag_is_permutation(rng: crate::rng::RNG)
    ensures
        next_bag(rng).to_multiset() == bag7_cycle().to_multiset(),
        next_bag(rng).len() == 7,
{
    reveal(next_bag);
    lemma_shuffle_from_multiset(bag7_cycle(), rng.seed, 6);
    crate::queue::lemma_next_bag_len(rng);
}

/// Reseeding always gives a seed from which the generator runs forever
/// without reaching 0.
pub proof fn law_seed_from_ok(v: u64)
    ensures
        seed_ok(seed_from(v)),
        0 < seed_from(v) < MODULUS,
{
    assert(MAX_FLOAT < MODULUS);
}


/// The base attack of a clear, for every line count and spin: a one-, two-
/// or three-row clear sends one row less than it clears, twice as many rows
/// as it clears with a full spin, and a mini or no spin never adds to it; a
/// four-row clear sends 4 rows, 10 with any spin; no clear sends nothing.
pub proof fn law_base_attack(lines: u8, spin: Spin)
    requires
        lines <= 4,
    ensures
        lines == 0 ==> base_rows(lines, spin) == 0,
        1 <= lines <= 3 && spin == Spin::Normal ==> base_rows(lines, spin) == 2 * lines,
        1 <= lines <= 3 && spin != Spin::Normal ==> base_rows(lines, spin) == lines - 1,
        1 <= lines <= 3 && spin != Spin::Normal ==> base_rows(lines, spin) == base_rows(lines, Spin::NoSpin),
        lines == 4 && spin == Spin::NoSpin ==> base_rows(lines, spin) == 4,
        lines == 4 && spin != Spin::NoSpin ==> base_rows(lines, spin) == 10,
        lines >= 1 ==> (base_rows(lines, Spin::NoSpin) < base_rows(lines, spin) <==> (spin == Spin::Normal
            || (lines == 4 && spin != Spin::NoSpin))),
{
}

/// A piece other than T that can move in no direction: the all-spin rules
/// (`All`, `AllPlus`) count it as a full spin, the mini rules (`AllMini`,
/// `AllMiniPlus`, `MiniOnly`) as a mini spin, whatever the kick.
pub proof fn law_immobile_piece_spin(g: Game, special: bool)
    requires
        g.piece.mino != Mino::T,
        g.immobile(),
    ensures
        g.awarded_spin(special, SpinBonuses::All) == Spin::Normal,
        g.awarded_spin(special, SpinBonuses::AllPlus) == Spin::Normal,
        g.awarded_spin(special, SpinBonuses::AllMini) == Spin::Mini,
        g.awarded_spin(special, SpinBonuses::AllMiniPlus) == Spin::Mini,
        g.awarded_spin(special, SpinBonuses::MiniOnly) == Spin::Mini,
        g.awarded_spin(special, SpinBonuses::All) == g.awarded_spin(special, SpinBonuses::AllPlus),
{
}

/// A piece other than T that can still move earns no spin under the
/// all-spin rules.
pub proof fn law_mobile_piece_no_spin(g: Game, special: bool)
    requires
        g.piece.mino != Mino::T,
        !g.immobile(),
    ensures
        g.awarded_spin(special, SpinBonuses::All) == Spin::NoSpin,
        g.awarded_spin(special, SpinBonuses::AllPlus) == Spin::NoSpin,
        g.awarded_spin(special, SpinBonuses::AllMini) == Spin::NoSpin,
        g.awarded_spin(special, SpinBonuses::AllMiniPlus) == Spin::NoSpin,
{
}

/// How many of the four spin corners of the falling piece are blocked.
pub open spec fn blocked_corners(g: Game) -> nat {
    match g.piece.shape.corners {
        Some(table) => count_range(|i: int| g.corner_blocked(table[g.piece.rot as int][i]), 0, 4),
        None => 0,
    }
}

/// How many of the blocked spin corners face the front of the piece.
pub open spec fn blocked_front_corners(g: Game) -> nat {
    match g.piece.shape.corners {
        Some(table) => count_range(
            |i: int| g.corner_blocked(table[g.piece.rot as int][i]) && crate::game::faces_front(table[g.piece.rot as int][i], g.piece.rot),
            0,
            4,
        ),
        None => 0,
    }
}

/// The three-corner rule for a T piece with corner data that rests on
/// something: with fewer than three corners blocked there is no spin; with
/// three or more, a T-spin-triple or fin kick always makes a full spin, and
/// otherwise it is a full spin exactly when both front corners are blocked
/// (two blocked front corners), a mini spin otherwise. A piece in the air
/// never spins.
pub proof fn law_three_corner_rule(g: Game)
    requires
        g.piece.mino == Mino::T,
        g.piece.shape.corners is Some,
    ensures
        !g.hits(g.piece.x as int, down(g.piece.y) as int) ==> g.corner_spin(false) == Spin::NoSpin
            && g.corner_spin(true) == Spin::NoSpin,
        blocked_corners(g) < 3 ==> g.corner_spin(false) == Spin::NoSpin && g.corner_spin(true) == Spin::NoSpin,
        g.hits(g.piece.x as int, down(g.piece.y) as int) && blocked_corners(g) >= 3 ==> {
            &&& g.corner_spin(true) == Spin::Normal
            &&& (g.corner_spin(false) == Spin::Normal <==> blocked_front_corners(g) == 2)
            &&& (g.corner_spin(false) == Spin::Mini <==> blocked_front_corners(g) != 2)
        },
        blocked_front_corners(g) == 1 && blocked_corners(g) >= 3 && g.hits(g.piece.x as int, down(g.piece.y) as int)
            ==> g.corner_spin(false) == Spin::Mini,
{
    let table = g.piece.shape.corners->0;
    let t = table[g.piece.rot as int];
    assert((|i: int| g.corner_blocked(t[i])) =~= (|i: int| g.corner_blocked(table[g.piece.rot as int][i])));
    assert((|i: int| g.corner_blocked(t[i]) && crate::game::faces_front(t[i], g.piece.rot)) =~= (|i: int|
        g.corner_blocked(table[g.piece.rot as int][i]) && crate::game::faces_front(table[g.piece.rot as int][i], g.piece.rot)));
}

/// The rotation with its left and right mirrored: 1 and 3 swap.
pub open spec fn mirror_rot(r: u8) -> u8 {
    if r == 1 {
        3
    } else if r == 3 {
        1
    } else {
        r
    }
}

/// The T-spin-triple and fin kicks come in mirror pairs: a turn and kick
/// is one exactly when the mirrored turn with the mirrored kick is. They are
/// the kick (1, -2) into rotation 3 and the kick (-1, -2) into rotation 1,
/// from rotation 0 or 2.
pub proof fn law_tst_kicks_mirror(from: u8, to: u8, dx: i8, dy: i8)
    requires
        from < 4,
        to < 4,
        -127 <= dx,
    ensures
        tst_or_fin(from, to, dx, dy) == tst_or_fin(mirror_rot(from), mirror_rot(to), (-dx) as i8, dy),
        tst_or_fin(from, to, dx, dy) ==> dy == -2 && (from == 0 || from == 2) && (to == 1 || to == 3),
        (from == 0 || from == 2) ==> tst_or_fin(from, 3, 1i8, -2i8) && tst_or_fin(from, 1, -1i8, -2i8),
{
}

/// A turn that kicks a T piece into place with a T-spin-triple or fin kick,
/// under the T-spin rules, is a full T-spin whenever it rests on something
/// with three corners blocked, whichever corners face the front.
pub proof fn law_tst_kick_full_spin(g: Game, amount: u8, config: GameConfig, np: Falling, kicked: bool)
    requires
        config.spins == SpinBonuses::TSpins,
        g.rotation(amount, &config) == Some((np, kicked, true)),
        np.mino == Mino::T,
        np.shape.corners is Some,
        (Game { piece: np, ..g }).hits(np.x as int, down(np.y) as int),
        blocked_corners(Game { piece: np, ..g }) >= 3,
    ensures
        g.spin_after_turn(np, true, config.spins) == Spin::Normal,
{
    law_three_corner_rule(Game { piece: np, ..g });
}

/// How many of the first `n` clears are of kind `k`.
pub open spec fn clears_of(clears: Seq<Spin>, k: Spin, n: int) -> int
    decreases n,
{
    if n <= 0 {
        0
    } else {
        clears_of(clears, k, n - 1) + (if clears[n - 1] == k { 1int } else { 0 })
    }
}

/// The evaluation total with weights `w`.
pub open spec fn eval_total(w: Weights, state: Game, sent: u16, clears: Seq<Spin>, b2b_log: i32) -> int {
    partial(eval_terms(w, state, sent, clears, b2b_log), eval_terms(w, state, sent, clears, b2b_log).len() as int)
}

proof fn lemma_partial_clear_diff(t1: Seq<int>, t2: Seq<int>, clears: Seq<Spin>, k: Spin, d: int, n: int)
    requires
        t1.len() == t2.len() == clears.len() + 12,
        forall|i: int|
            0 <= i < t1.len() ==> #[trigger] t2[i] - t1[i] == (if 5 <= i < 5 + clears.len() && clears[i - 5] == k {
                1000 * d
            } else {
                0
            }),
        0 <= n <= t1.len(),
    ensures
        partial(t2, n) - partial(t1, n) == 1000 * d * clears_of(
            clears,
            k,
            if n <= 5 { 0 } else if n >= 5 + clears.len() { clears.len() as int } else { n - 5 },
        ),
    decreases n,
{
    if n > 0 {
        lemma_partial_clear_diff(t1, t2, clears, k, d, n - 1);
        let m = if n - 1 <= 5 { 0 } else if n - 1 >= 5 + clears.len() { clears.len() as int } else { n - 1 - 5 };
        let c = clears_of(clears, k, m);
        assert(1000 * d * (c + 1) == 1000 * d * c + 1000 * d) by (nonlinear_arith);
    }
}

/// Changing one clear weight changes the score by 1000 times the change for
/// each clear of that kind: the weight `clear_none` scores the clears
/// without spin, `clear_mini` the mini spins and `clear_normal` the full
/// spins.
pub proof fn law_eval_clear_weights(w: Weights, v: i32, state: Game, sent: u16, clears: Seq<Spin>, b2b_log: i32)
    ensures
        eval_total(Weights { clear_none: v, ..w }, state, sent, clears, b2b_log) - eval_total(w, state, sent, clears, b2b_log)
            == 1000 * (v - w.clear_none) * clears_of(clears, Spin::NoSpin, clears.len() as int),
        eval_total(Weights { clear_mini: v, ..w }, state, sent, clears, b2b_log) - eval_total(w, state, sent, clears, b2b_log)
            == 1000 * (v - w.clear_mini) * clears_of(clears, Spin::Mini, clears.len() as int),
        eval_total(Weights { clear_normal: v, ..w }, state, sent, clears, b2b_log) - eval_total(w, state, sent, clears, b2b_log)
            == 1000 * (v - w.clear_normal) * clears_of(clears, Spin::Normal, clears.len() as int),
{
    let t1 = eval_terms(w, state, sent, clears, b2b_log);
    let nc = clears.len() as int;
    let wa = Weights { clear_none: v, ..w };
    let wb = Weights { clear_mini: v, ..w };
    let wc = Weights { clear_normal: v, ..w };
    let ta = eval_terms(wa, state, sent, clears, b2b_log);
    let tb = eval_terms(wb, state, sent, clears, b2b_log);
    let tc = eval_terms(wc, state, sent, clears, b2b_log);
    assert forall|i: int| 0 <= i < t1.len() implies #[trigger] ta[i] - t1[i] == (if 5 <= i < 5 + nc && clears[i - 5]
        == Spin::NoSpin {
        1000 * (v - w.clear_none)
    } else {
        0
    }) by {
        if 5 <= i < 5 + nc {
            assert(ta[i] == clear_weight(wa, clears[i - 5]) * 1000);
            assert(t1[i] == clear_weight(w, clears[i - 5]) * 1000);
        }
    }
    assert forall|i: int| 0 <= i < t1.len() implies #[trigger] tb[i] - t1[i] == (if 5 <= i < 5 + nc && clears[i - 5]
        == Spin::Mini {
        1000 * (v - w.clear_mini)
    } else {
        0
    }) by {
        if 5 <= i < 5 + nc {
            assert(tb[i] == clear_weight(wb, clears[i - 5]) * 1000);
            assert(t1[i] == clear_weight(w, clears[i - 5]) * 1000);
        }
    }
    assert forall|i: int| 0 <= i < t1.len() implies #[trigger] tc[i] - t1[i] == (if 5 <= i < 5 + nc && clears[i - 5]
        == Spin::Normal {
        1000 * (v - w.clear_normal)
    } else {
        0
    }) by {
        if 5 <= i < 5 + nc {
            assert(tc[i] == clear_weight(wc, clears[i - 5]) * 1000);
            assert(t1[i] == clear_weight(w, clears[i - 5]) * 1000);
        }
    }
    lemma_partial_clear_diff(t1, ta, clears, Spin::NoSpin, v - w.clear_none, t1.len() as int);
    lemma_partial_clear_diff(t1, tb, clears, Spin::Mini, v - w.clear_mini, t1.len() as int);
    lemma_partial_clear_diff(t1, tc, clears, Spin::Normal, v - w.clear_normal, t1.len() as int);
}

} // verus!
