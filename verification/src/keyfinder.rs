use vstd::prelude::*;
use std::collections::VecDeque;
use crate::bits::{bit, lemma_or_single, lemma_bit_basics};
use crate::game::{Game, GameConfig, Garbage, down, up, rest_y, slide_left, slide_right, lemma_rest_y_bounds};
use crate::piece::{Falling, Spin};

verus! {

/// Whether the packed form of `blocks` has bit `b` of word `i` set: cell
/// (`x`, `y`) goes to word `y / 4`, bit `4 x + y % 4`.
pub open spec fn packs(blocks: [(u8, u8); 4], i: int, b: int) -> bool {
    exists|k: int| 0 <= k < 4 && (#[trigger] blocks[k]).1 / 4 == i && blocks[k].0 * 4 + blocks[k].1 % 4 == b
}

/// `packs` restricted to the first `n` cells.
pub open spec fn packs_first(blocks: [(u8, u8); 4], n: int, i: int, b: int) -> bool {
    exists|k: int| 0 <= k < n && (#[trigger] blocks[k]).1 / 4 == i && blocks[k].0 * 4 + blocks[k].1 % 4 == b
}

proof fn lemma_packs_first_step(blocks: [(u8, u8); 4], n: int, i: int, b: int)
    requires
        0 <= n < 4,
    ensures
        packs_first(blocks, n + 1, i, b) == (packs_first(blocks, n, i, b) || (blocks[n].1 / 4 == i && blocks[n].0 * 4
            + blocks[n].1 % 4 == b)),
{
    if packs_first(blocks, n + 1, i, b) {
        let k = choose|k: int| 0 <= k < n + 1 && (#[trigger] blocks[k]).1 / 4 == i && blocks[k].0 * 4 + blocks[k].1 % 4 == b;
        if k < n {
            assert(packs_first(blocks, n, i, b));
        }
    }
    if packs_first(blocks, n, i, b) {
        let k = choose|k: int| 0 <= k < n && (#[trigger] blocks[k]).1 / 4 == i && blocks[k].0 * 4 + blocks[k].1 % 4 == b;
        assert(0 <= k < n + 1);
    }
    if blocks[n].1 / 4 == i && blocks[n].0 * 4 + blocks[n].1 % 4 == b {
        assert(0 <= n < n + 1);
    }
}

proof fn lemma_pack_injective(x1: u8, y1: u8, x2: u8, y2: u8)
    requires
        x1 < 16,
        x2 < 16,
        y1 / 4 == y2 / 4,
        x1 * 4 + y1 % 4 == x2 * 4 + y2 % 4,
    ensures
        x1 == x2,
        y1 == y2,
{
    assert(x1 == x2 && y1 == y2) by (nonlinear_arith)
        requires
            x1 < 16,
            x2 < 16,
            y1 / 4 == y2 / 4,
            x1 * 4 + y1 % 4 == x2 * 4 + y2 % 4,
    ;
}

/// Whether `blocks` lists the cell `c`.
pub open spec fn lists(blocks: [(u8, u8); 4], c: (u8, u8)) -> bool {
    exists|k: int| 0 <= k < 4 && #[trigger] blocks[k] == c
}

/// Every cell fits the packed form: rows below 28, columns below 16.
pub open spec fn packable(blocks: [(u8, u8); 4]) -> bool {
    forall|k: int| 0 <= k < 4 ==> (#[trigger] blocks[k]).1 < 28 && blocks[k].0 < 16
}

/// Packs four cells into seven words, one bit per cell.
pub fn compress_blocks(blocks: &[(u8, u8); 4]) -> (r: [u64; 7])
    requires
        packable(*blocks),
    ensures
        forall|i: int, b: int| 0 <= i < 7 && 0 <= b < 64 ==> #[trigger] bit(r[i], b) == packs(*blocks, i, b),
{
    let mut res = [0u64; 7];
    proof {
        assert forall|i: int, b: int| 0 <= i < 7 && 0 <= b < 64 implies !#[trigger] bit(res[i], b) by {
            lemma_bit_basics(0, b as u64);
        }
    }
    let mut k: usize = 0;
    while k < 4
        invariant
            k <= 4,
            packable(*blocks),
            forall|i: int, b: int|
                0 <= i < 7 && 0 <= b < 64 ==> #[trigger] bit(res[i], b) == packs_first(*blocks, k as int, i, b),
        decreases 4 - k,
    {
        let (x, y) = blocks[k];
        let idx = (y / 4) as usize;
        let sh = x * 4 + (y % 4);
        let ghost pre = res;
        res[idx] = res[idx] | (1u64 << (sh as u64));
        proof {
            assert forall|i: int, b: int| 0 <= i < 7 && 0 <= b < 64 implies #[trigger] bit(res[i], b)
                == packs_first(*blocks, k + 1, i, b) by {
                lemma_packs_first_step(*blocks, k as int, i, b);
                assert(blocks[k as int].1 / 4 == idx);
                assert(blocks[k as int].0 * 4 + blocks[k as int].1 % 4 == sh);
                assert(bit(pre[i], b) == packs_first(*blocks, k as int, i, b));
                if i == idx {
                    lemma_or_single(pre[i], sh as u64, b as u64);
                    assert(res[i] == pre[i] | (1u64 << (sh as u64)));
                    assert(bit(res[i], b) == (b == sh || bit(pre[i], b)));
                } else {
                    assert(res[i] == pre[i]);
                }
            }
        }
        k += 1;
    }
    proof {
        assert forall|i: int, b: int| 0 <= i < 7 && 0 <= b < 64 implies #[trigger] bit(res[i], b) == packs(*blocks, i, b) by {
            assert(packs_first(*blocks, 4, i, b) == packs(*blocks, i, b));
        }
    }
    res
}

/// Two packable cell lists pack alike exactly when they list the same cells.
pub proof fn lemma_packs_same_cells(a: [(u8, u8); 4], c: [(u8, u8); 4])
    requires
        packable(a),
        packable(c),
    ensures
        (forall|i: int, b: int| 0 <= i < 7 && 0 <= b < 64 ==> #[trigger] packs(a, i, b) == packs(c, i, b)) <==> (
        forall|cell: (u8, u8)| #[trigger] lists(a, cell) == lists(c, cell)),
{
    if forall|i: int, b: int| 0 <= i < 7 && 0 <= b < 64 ==> #[trigger] packs(a, i, b) == packs(c, i, b) {
        assert forall|cell: (u8, u8)| #[trigger] lists(a, cell) == lists(c, cell) by {
            if lists(a, cell) {
                let k = choose|k: int| 0 <= k < 4 && #[trigger] a[k] == cell;
                assert(a[k].0 < 16);
                assert(packs(a, (cell.1 / 4) as int, cell.0 * 4 + cell.1 % 4));
                let j = choose|j: int| 0 <= j < 4 && (#[trigger] c[j]).1 / 4 == cell.1 / 4 && c[j].0 * 4 + c[j].1 % 4 == cell.0 * 4 + cell.1 % 4;
                assert(c[j].0 < 16);
                lemma_pack_injective(c[j].0, c[j].1, cell.0, cell.1);
                assert(c[j] == cell);
            }
            if lists(c, cell) {
                let k = choose|k: int| 0 <= k < 4 && #[trigger] c[k] == cell;
                assert(c[k].0 < 16);
                assert(packs(c, (cell.1 / 4) as int, cell.0 * 4 + cell.1 % 4));
                assert(packs(a, (cell.1 / 4) as int, cell.0 * 4 + cell.1 % 4));
                let j = choose|j: int| 0 <= j < 4 && (#[trigger] a[j]).1 / 4 == cell.1 / 4 && a[j].0 * 4 + a[j].1 % 4 == cell.0 * 4 + cell.1 % 4;
                assert(a[j].0 < 16);
                lemma_pack_injective(a[j].0, a[j].1, cell.0, cell.1);
                assert(a[j] == cell);
            }
        }
    }
    if forall|cell: (u8, u8)| #[trigger] lists(a, cell) == lists(c, cell) {
        assert forall|i: int, b: int| 0 <= i < 7 && 0 <= b < 64 implies #[trigger] packs(a, i, b) == packs(c, i, b) by {
            if packs(a, i, b) {
                let k = choose|k: int| 0 <= k < 4 && (#[trigger] a[k]).1 / 4 == i && a[k].0 * 4 + a[k].1 % 4 == b;
                assert(lists(a, a[k]));
                assert(lists(c, a[k]));
                let j = choose|j: int| 0 <= j < 4 && #[trigger] c[j] == a[k];
                assert(packs(c, i, b));
            }
            if packs(c, i, b) {
                let k = choose|k: int| 0 <= k < 4 && (#[trigger] c[k]).1 / 4 == i && c[k].0 * 4 + c[k].1 % 4 == b;
                assert(lists(c, c[k]));
                assert(lists(a, c[k]));
                let j = choose|j: int| 0 <= j < 4 && #[trigger] a[j] == c[k];
                assert(packs(a, i, b));
            }
        }
    }
}

/// A key the bot can press.
#[derive(Clone, Copy, Debug, PartialEq, Eq, Structural)]
pub enum Move {
    NoMove,
    Left,
    Right,
    SoftDrop,
    CCW,
    CW,
    Flip,
    DasLeft,
    DasRight,
    HardDrop,
    Hold,
}

/// The game with the falling piece at (`x`, `y`) in rotation `rot` and
/// spin `spin`, everything else as in `g`.
pub open spec fn with_pose(g: Game, x: u8, y: u8, rot: u8, spin: Spin) -> Game {
    Game { piece: Falling { x, y, rot, ..g.piece }, spin, ..g }
}

/// The game after turning the piece by `amount` quarter turns, and whether
/// it turned.
pub open spec fn turned(g: Game, amount: u8, config: GameConfig) -> (Game, bool) {
    match g.rotation(amount, &config) {
        Some((np, _, special)) => (Game { piece: np, spin: g.spin_after_turn(np, special, config.spins), ..g }, true),
        None => (g, false),
    }
}

/// The game after pressing `m` (any key but `Hold`), and whether the key
/// did something.
pub open spec fn after_move(g: Game, m: Move, config: GameConfig) -> (Game, bool) {
    let p = g.piece;
    let cm = g.collision_map;
    match m {
        Move::Left => if !g.hits(down(p.x) as int, p.y as int) {
            (Game { piece: Falling { x: down(p.x), ..p }, ..g }, true)
        } else {
            (g, false)
        },
        Move::Right => if !g.hits(up(p.x) as int, p.y as int) {
            (Game { piece: Falling { x: up(p.x), ..p }, ..g }, true)
        } else {
            (g, false)
        },
        Move::SoftDrop => {
            let y1 = rest_y(cm, p.x, p.y as int, p.rot as int) as u8;
            (Game { piece: Falling { y: y1, ..p }, ..g }, y1 != p.y)
        },
        Move::HardDrop => {
            let y1 = rest_y(cm, p.x, p.y as int, p.rot as int) as u8;
            (Game { piece: Falling { y: y1, ..p }, ..g }, true)
        },
        Move::DasLeft => {
            let x1 = slide_left(cm, p.x as int, p.y as int, p.rot as int) as u8;
            (Game { piece: Falling { x: x1, ..p }, ..g }, x1 != p.x)
        },
        Move::DasRight => {
            let x1 = slide_right(cm, p.x as int, p.y as int, p.rot as int) as u8;
            (Game { piece: Falling { x: x1, ..p }, ..g }, x1 != p.x)
        },
        Move::CW => turned(g, 1, config),
        Move::CCW => turned(g, 3, config),
        Move::Flip => turned(g, 2, config),
        Move::NoMove | Move::Hold => (g, false),
    }
}

/// The game after pressing the keys of `path` in order (none of them
/// `Hold`), and whether every key did something.
pub open spec fn run_path(g: Game, path: Seq<Move>, config: GameConfig) -> (Game, bool)
    decreases path.len(),
{
    if path.len() == 0 {
        (g, true)
    } else {
        let (g1, ok1) = run_path(g, path.drop_last(), config);
        let (g2, ok2) = after_move(g1, path.last(), config);
        (g2, ok1 && ok2)
    }
}

pub proof fn lemma_slide_right_bound(cm: crate::piece::CollisionMap, x: int, y: int, rot: int)
    requires
        0 <= x < 255,
    ensures
        x <= slide_right(cm, x, y, rot) < 255,
    decreases 255 - x,
{
    if !(x >= 255 || cm.hits(x + 1, y, rot)) {
        lemma_slide_right_bound(cm, x + 1, y, rot);
    }
}

pub proof fn lemma_slide_left_bound(cm: crate::piece::CollisionMap, x: int, y: int, rot: int)
    requires
        0 <= x,
    ensures
        0 <= slide_left(cm, x, y, rot) <= x,
    decreases x,
{
    if !(x <= 0 || cm.hits(x - 1, y, rot)) {
        lemma_slide_left_bound(cm, x - 1, y, rot);
    }
}

pub proof fn lemma_first_free_kick(g: Game, kicks: Seq<(i8, i8)>, to: int, k: int)
    requires
        0 <= k,
    ensures
        k <= g.first_free_kick(kicks, to, k) <= kicks.len() || (k > kicks.len() && g.first_free_kick(kicks, to, k) == kicks.len()),
        g.first_free_kick(kicks, to, k) < kicks.len() ==> !g.collision_map.hits(
            crate::game::kick_x(g.piece.x, kicks[g.first_free_kick(kicks, to, k)].0) as int,
            crate::game::kick_y(g.piece.y, kicks[g.first_free_kick(kicks, to, k)].1) as int,
            to,
        ),
    decreases kicks.len() - k,
{
    if k < kicks.len() && g.collision_map.hits(
        crate::game::kick_x(g.piece.x, kicks[k].0) as int,
        crate::game::kick_y(g.piece.y, kicks[k].1) as int,
        to,
    ) {
        lemma_first_free_kick(g, kicks, to, k + 1);
    }
}

/// A key press changes only the pose of the falling piece and the spin,
/// keeps the rotation below 4 and the column below 255.
pub proof fn lemma_after_move_pose(g: Game, m: Move, config: GameConfig)
    requires
        g.piece.rot < 4,
        g.piece.x < 255,
    ensures
        ({
            let g2 = after_move(g, m, config).0;
            &&& g2 == with_pose(g, g2.piece.x, g2.piece.y, g2.piece.rot, g2.spin)
            &&& g2.piece.rot < 4
            &&& g2.piece.x < 255
        }),
{
    let p = g.piece;
    let amount: u8 = match m {
        Move::CW => 1,
        Move::CCW => 3,
        _ => 2,
    };
    let to = ((p.rot + amount) % 4) as u8;
    lemma_first_free_kick(g, config.kicks.tests(p.mino, p.rot as int, to as int), to as int, 0);
    lemma_rest_y_bounds(g.collision_map, p.x, p.y as int, p.rot as int);
    lemma_slide_left_bound(g.collision_map, p.x as int, p.y as int, p.rot as int);
    lemma_slide_right_bound(g.collision_map, p.x as int, p.y as int, p.rot as int);
}

/// `a` and `b` agree in everything but the incoming garbage queue, whose
/// contents they share.
pub open spec fn same_but_garbage(a: Game, b: Game) -> bool {
    &&& (Game { garbage: b.garbage, ..a }) == b
    &&& a.garbage@ == b.garbage@
}

proof fn lemma_first_free_kick_same(a: Game, b: Game, kicks: Seq<(i8, i8)>, to: int, k: int)
    requires
        (Game { garbage: b.garbage, ..a }) == b,
    ensures
        a.first_free_kick(kicks, to, k) == b.first_free_kick(kicks, to, k),
    decreases kicks.len() - k,
{
    if 0 <= k < kicks.len() {
        lemma_first_free_kick_same(a, b, kicks, to, k + 1);
    }
}

proof fn lemma_corner_spin_same(a: Game, b: Game, special: bool)
    requires
        a.board == b.board,
        a.piece == b.piece,
        a.collision_map == b.collision_map,
    ensures
        a.corner_spin(special) == b.corner_spin(special),
{
    match a.piece.shape.corners {
        Some(table) => {
            let t = table[a.piece.rot as int];
            assert((|i: int| a.corner_blocked(t[i])) =~= (|i: int| b.corner_blocked(t[i])));
            assert((|i: int| a.corner_blocked(t[i]) && crate::game::faces_front(t[i], a.piece.rot)) =~= (|i: int|
                b.corner_blocked(t[i]) && crate::game::faces_front(t[i], b.piece.rot)));
        },
        None => {},
    }
}

/// Key presses do not look at the incoming garbage.
pub proof fn lemma_after_move_same(a: Game, b: Game, m: Move, config: GameConfig)
    requires
        same_but_garbage(a, b),
    ensures
        after_move(a, m, config).1 == after_move(b, m, config).1,
        same_but_garbage(after_move(a, m, config).0, after_move(b, m, config).0),
{
    lemma_after_move_frame(a, b, m, config);
}

/// A key press leaves the garbage field as it found it and does not look at
/// it.
pub proof fn lemma_after_move_frame(a: Game, b: Game, m: Move, config: GameConfig)
    requires
        (Game { garbage: b.garbage, ..a }) == b,
    ensures
        after_move(a, m, config).1 == after_move(b, m, config).1,
        (Game { garbage: after_move(b, m, config).0.garbage, ..after_move(a, m, config).0 }) == after_move(b, m, config).0,
        after_move(a, m, config).0.garbage == a.garbage,
        after_move(b, m, config).0.garbage == b.garbage,
{
    let p = a.piece;
    let amount: u8 = match m {
        Move::CW => 1,
        Move::CCW => 3,
        _ => 2,
    };
    let to = ((p.rot + amount) % 4) as u8;
    lemma_first_free_kick_same(a, b, config.kicks.tests(p.mino, p.rot as int, to as int), to as int, 0);
    assert(a.rotation(amount, &config) == b.rotation(amount, &config));
    match a.rotation(amount, &config) {
        Some((np, _, special)) => {
            lemma_corner_spin_same(Game { piece: np, ..a }, Game { piece: np, ..b }, special);
        },
        None => {},
    }
}

/// Every prefix of a path whose keys all do something is such a path, and
/// none of its keys is `Hold`.
pub proof fn lemma_run_path_prefix(g: Game, path: Seq<Move>, j: int, config: GameConfig)
    requires
        run_path(g, path, config).1,
        0 <= j <= path.len(),
    ensures
        run_path(g, path.take(j), config).1,
        j < path.len() ==> path[j] != Move::Hold,
    decreases path.len(),
{
    if j == path.len() {
        assert(path.take(j) =~= path);
    } else {
        assert(path.take(j) =~= path.drop_last().take(j));
        if j < path.len() - 1 {
            assert(path[j] == path.drop_last()[j]);
        }
        lemma_run_path_prefix(g, path.drop_last(), j, config);
    }
}

/// The cells of a piece at (`x`, `y`) with offsets `cells` include `c`.
pub open spec fn occupies(x: u8, y: u8, cells: [(u8, u8); 4], c: (u8, u8)) -> bool {
    exists|k: int| 0 <= k < 4 && c.0 == x - (#[trigger] cells[k]).0 && c.1 == y - cells[k].1
}

/// `keys` hard-drops the falling piece of `state` (with the spin cleared) at
/// `target`: every key before the final hard drop does something, and the
/// dropped piece has the target's rotation parity and spin and covers the
/// cells that the target placement covers.
pub open spec fn keys_reach(state: Game, config: GameConfig, target: (u8, u8, u8, Spin), keys: Seq<Move>) -> bool {
    let start = Game { spin: Spin::NoSpin, ..state };
    let (g1, ok) = run_path(start, keys.drop_last(), config);
    let g2 = after_move(g1, Move::HardDrop, config).0;
    &&& keys.len() >= 1
    &&& keys.last() == Move::HardDrop
    &&& ok
    &&& target.2 < 4
    &&& g2.piece.rot % 2 == target.2 % 2
    &&& g2.spin == target.3
    &&& forall|c: (u8, u8)|
        #[trigger] occupies(g2.piece.x, g2.piece.y, g2.cells(), c) == occupies(
            target.0,
            target.1,
            state.piece.shape.rotations[target.2 as int],
            c,
        )
}

/// The keys the search tries after `last`, in order; `NoMove` ends a list.
pub open spec fn moves_after(last: Move) -> [Move; 9] {
    match last {
        Move::Left => [Move::CW, Move::CCW, Move::Flip, Move::Left, Move::SoftDrop, Move::DasRight, Move::HardDrop, Move::NoMove, Move::NoMove],
        Move::Right => [Move::CW, Move::CCW, Move::Flip, Move::Right, Move::SoftDrop, Move::DasLeft, Move::HardDrop, Move::NoMove, Move::NoMove],
        Move::SoftDrop => [Move::CW, Move::CCW, Move::Flip, Move::Left, Move::Right, Move::DasLeft, Move::DasRight, Move::NoMove, Move::NoMove],
        Move::DasLeft => [Move::CW, Move::CCW, Move::Flip, Move::Right, Move::SoftDrop, Move::DasRight, Move::HardDrop, Move::NoMove, Move::NoMove],
        Move::DasRight => [Move::CW, Move::CCW, Move::Flip, Move::Left, Move::SoftDrop, Move::DasLeft, Move::HardDrop, Move::NoMove, Move::NoMove],
        _ => [Move::CW, Move::CCW, Move::Flip, Move::Left, Move::Right, Move::SoftDrop, Move::DasLeft, Move::DasRight, Move::HardDrop],
    }
}

/// The keys allowed after `last`.
fn next_moves(last: Move) -> (r: [Move; 9])
    ensures
        r == moves_after(last),
        forall|j: int| 0 <= j < 9 ==> #[trigger] r[j] != Move::Hold,
        last == Move::NoMove ==> r[8] == Move::HardDrop && forall|j: int| 0 <= j < 8 ==> #[trigger] r[j] != Move::NoMove
            && r[j] != Move::HardDrop,
{
    match last {
        Move::Left => [Move::CW, Move::CCW, Move::Flip, Move::Left, Move::SoftDrop, Move::DasRight, Move::HardDrop, Move::NoMove, Move::NoMove],
        Move::Right => [Move::CW, Move::CCW, Move::Flip, Move::Right, Move::SoftDrop, Move::DasLeft, Move::HardDrop, Move::NoMove, Move::NoMove],
        Move::SoftDrop => [Move::CW, Move::CCW, Move::Flip, Move::Left, Move::Right, Move::DasLeft, Move::DasRight, Move::NoMove, Move::NoMove],
        Move::DasLeft => [Move::CW, Move::CCW, Move::Flip, Move::Right, Move::SoftDrop, Move::DasRight, Move::HardDrop, Move::NoMove, Move::NoMove],
        Move::DasRight => [Move::CW, Move::CCW, Move::Flip, Move::Left, Move::SoftDrop, Move::DasLeft, Move::HardDrop, Move::NoMove, Move::NoMove],
        _ => [Move::CW, Move::CCW, Move::Flip, Move::Left, Move::Right, Move::SoftDrop, Move::DasLeft, Move::DasRight, Move::HardDrop],
    }
}

/// The number a spin takes in a visited-state key: 0 for none, 1 for a
/// mini, 2 for a full spin.
pub open spec fn spin_number(s: Spin) -> u16 {
    match s {
        Spin::NoSpin => 0u16,
        Spin::Mini => 1u16,
        Spin::Normal => 2u16,
    }
}

/// Computes `spin_number`.
fn spin_code(s: Spin) -> (r: u16)
    ensures
        r == spin_number(s),
{
    match s {
        Spin::NoSpin => 0,
        Spin::Mini => 1,
        Spin::Normal => 2,
    }
}

/// Every cell of a piece at (`x`, `y`) with offsets `b` lies right of
/// column 0 and above row 0, and inside the packed range (columns below 16,
/// rows below 28).
pub open spec fn fits_packed(x: u8, y: u8, b: [(u8, u8); 4]) -> bool {
    forall|k: int| 0 <= k < 4 ==> (#[trigger] b[k]).0 <= x && b[k].1 <= y && x - b[k].0 < 16 && y - b[k].1 < 28
}

/// The cells of a piece at (`x`, `y`) with offsets `b`; None when a cell
/// would fall left of column 0 or below row 0, or outside the packed range.
fn cells_at(x: u8, y: u8, b: [(u8, u8); 4]) -> (r: Option<[(u8, u8); 4]>)
    ensures
        r is Some <==> fits_packed(x, y, b),
        r matches Some(cells) ==> forall|k: int| 0 <= k < 4 ==> #[trigger] cells[k] == ((x - b[k].0) as u8, (y - b[k].1) as u8),
        r matches Some(cells) ==> packable(cells) && forall|c: (u8, u8)| #[trigger] lists(cells, c) == occupies(x, y, b, c),
{
    let mut cells = [(0u8, 0u8); 4];
    let mut k: usize = 0;
    while k < 4
        invariant
            k <= 4,
            forall|j: int| 0 <= j < k ==> (#[trigger] cells[j]) == ((x - b[j].0) as u8, (y - b[j].1) as u8) && b[j].0 <= x && b[j].1 <= y
                && cells[j].1 < 28 && cells[j].0 < 16,
        decreases 4 - k,
    {
        if b[k].0 > x || b[k].1 > y {
            assert(!fits_packed(x, y, b) && b[k as int] == b[k as int]);
            return None;
        }
        let c = (x - b[k].0, y - b[k].1);
        if c.1 >= 28 || c.0 >= 16 {
            assert(!fits_packed(x, y, b) && b[k as int] == b[k as int]);
            return None;
        }
        cells[k] = c;
        k += 1;
    }
    proof {
        assert forall|k: int| 0 <= k < 4 implies (#[trigger] b[k]).0 <= x && b[k].1 <= y && x - b[k].0 < 16 && y
            - b[k].1 < 28 by {
            assert(cells[k] == ((x - b[k].0) as u8, (y - b[k].1) as u8));
        }
        assert forall|c: (u8, u8)| #[trigger] lists(cells, c) == occupies(x, y, b, c) by {
            if lists(cells, c) {
                let k = choose|k: int| 0 <= k < 4 && #[trigger] cells[k] == c;
                assert(c.0 == x - b[k].0 && c.1 == y - b[k].1);
            }
            if occupies(x, y, b, c) {
                let k = choose|k: int| 0 <= k < 4 && c.0 == x - (#[trigger] b[k]).0 && c.1 == y - b[k].1;
                assert(cells[k] == c);
            }
        }
    }
    Some(cells)
}

/// A place the search has reached: column, row, rotation, spin, and the
/// keys that lead there.
pub type Reached = (u8, u8, u8, Spin, Seq<Move>);

/// What trying the keys of one reached place gives: keys to the target, a
/// stop (out of room), or the grown queue and visited set.
pub enum Expansion {
    Found(Seq<Move>),
    GiveUp,
    Grown(Seq<Reached>, Seq<u64>),
}

/// The number under which the search remembers that it has seen a pose:
/// column (4 bits), row (6 bits), rotation (2 bits) and spin (2 bits).
pub open spec fn pose_key(g: Game) -> u16 {
    (g.piece.x as u16 & 0b1111) | ((g.piece.y as u16 & 0b111111) << 4u16) | ((g.piece.rot as u16 & 0b11) << 10u16)
        | ((spin_number(g.spin) & 0b11) << 12u16)
}

/// A fixed garbage queue: the search does not look at the garbage.
pub open spec fn some_garbage() -> VecDeque<Garbage> {
    vstd::pervasive::arbitrary()
}

/// The search's starting game: `game` with the spin cleared (and a fixed
/// garbage queue, which no key press looks at).
pub open spec fn search_start(game: Game) -> Game {
    Game { spin: Spin::NoSpin, garbage: some_garbage(), ..game }
}

/// Whether the piece of `g` covers the cells that the target placement
/// covers.
pub open spec fn covers_target(g: Game, start: Game, target: (u8, u8, u8, Spin)) -> bool {
    forall|c: (u8, u8)|
        #[trigger] occupies(g.piece.x, g.piece.y, g.cells(), c) == occupies(
            target.0,
            target.1,
            start.piece.shape.rotations[target.2 as int],
            c,
        )
}

/// Tries the keys `row[j..]` from the reached place `e` in order. A hard
/// drop with the target's rotation parity and spin either stops the search
/// (a cell outside the packed range), ends it (the target's cells), or
/// passes; any other key that moves the piece to a pose not seen before
/// queues that pose (the search stops at 16 keys or a full queue).
pub open spec fn try_keys(
    start: Game,
    config: GameConfig,
    target: (u8, u8, u8, Spin),
    nodes: Seq<Reached>,
    passed: Seq<u64>,
    e: Reached,
    row: [Move; 9],
    j: int,
) -> Expansion
    decreases 9 - j,
{
    if j < 0 || j >= 9 || row[j] == Move::NoMove {
        Expansion::Grown(nodes, passed)
    } else {
        let mv = row[j];
        let (g, ok) = after_move(with_pose(start, e.0, e.1, e.2, e.3), mv, config);
        if mv == Move::HardDrop {
            if g.piece.rot % 2 == target.2 % 2 && g.spin == target.3 {
                if !fits_packed(g.piece.x, g.piece.y, g.cells()) {
                    Expansion::GiveUp
                } else if covers_target(g, start, target) {
                    Expansion::Found(e.4.push(Move::HardDrop))
                } else {
                    try_keys(start, config, target, nodes, passed, e, row, j + 1)
                }
            } else {
                try_keys(start, config, target, nodes, passed, e, row, j + 1)
            }
        } else if ok {
            if e.4.len() >= 16 {
                Expansion::GiveUp
            } else {
                let key = pose_key(g);
                let idx = (key / 64) as int;
                let mask = 1u64 << ((key % 64) as u64);
                if passed[idx] & mask == 0 {
                    if nodes.len() >= 2048 {
                        Expansion::GiveUp
                    } else {
                        try_keys(
                            start,
                            config,
                            target,
                            nodes.push((g.piece.x, g.piece.y, g.piece.rot, g.spin, e.4.push(mv))),
                            passed.update(idx, passed[idx] | mask),
                            e,
                            row,
                            j + 1,
                        )
                    }
                } else {
                    try_keys(start, config, target, nodes, passed, e, row, j + 1)
                }
            }
        } else {
            try_keys(start, config, target, nodes, passed, e, row, j + 1)
        }
    }
}

/// The last key of `keys`, `NoMove` for none.
pub open spec fn last_key(keys: Seq<Move>) -> Move {
    if keys.len() == 0 {
        Move::NoMove
    } else {
        keys.last()
    }
}

/// The breadth-first search from the `front`-th queued place on.
pub open spec fn search_from(
    start: Game,
    config: GameConfig,
    target: (u8, u8, u8, Spin),
    nodes: Seq<Reached>,
    passed: Seq<u64>,
    front: int,
) -> Option<Seq<Move>>
    decreases 2048 - front,
{
    if front < 0 || front >= nodes.len() || front >= 2048 {
        None
    } else {
        let e = nodes[front];
        match try_keys(start, config, target, nodes, passed, e, moves_after(last_key(e.4)), 0) {
            Expansion::Found(p) => Some(p),
            Expansion::GiveUp => None,
            Expansion::Grown(n, ps) => search_from(start, config, target, n, ps, front + 1),
        }
    }
}

/// The keys that the breadth-first search finds to `target`: from the piece
/// where it stands with the spin cleared, places are taken in the order they
/// were first reached, each trying the keys allowed after the key that led
/// there; the first hard drop onto the target's cells with its rotation
/// parity and spin wins. None for a target rotation of 4 or more, a target
/// outside the packed range, or when the search stops or runs dry.
pub open spec fn search_keys(game: Game, config: GameConfig, target: (u8, u8, u8, Spin)) -> Option<Seq<Move>> {
    let start = search_start(game);
    if target.2 >= 4 || !fits_packed(target.0, target.1, game.piece.shape.rotations[target.2 as int]) {
        None
    } else {
        search_from(
            start,
            config,
            target,
            seq![(start.piece.x, start.piece.y, start.piece.rot, Spin::NoSpin, Seq::<Move>::empty())],
            Seq::new(1024, |i: int| 0u64),
            0,
        )
    }
}

/// What the search gives once the expansion `x` of the place before `front`
/// is done: the keys found, nothing, or the search from `front` on.
pub open spec fn continue_search(
    start: Game,
    config: GameConfig,
    target: (u8, u8, u8, Spin),
    x: Expansion,
    front: int,
) -> Option<Seq<Move>> {
    match x {
        Expansion::Found(p) => Some(p),
        Expansion::GiveUp => None,
        Expansion::Grown(n, ps) => search_from(start, config, target, n, ps, front),
    }
}

/// The queued place `q` as the search's model sees it.
pub open spec fn reached(q: (u8, u8, u8, Spin, [Move; 16], usize)) -> Reached {
    (q.0, q.1, q.2, q.3, q.4@.take(q.5 as int))
}

/// Finds keys that bring the falling piece of `game` to `target` (column,
/// row, rotation, spin) and hard-drop it there, by a breadth-first search
/// over key presses from the piece's current place with the spin cleared
/// (see `search_keys`, which it computes). None when the search stops or
/// finds nothing.
#[verifier::rlimit(100)]
#[verifier::spinoff_prover]
pub fn get_keys(game: Game, config: &GameConfig, target: (u8, u8, u8, Spin)) -> (r: Option<Vec<Move>>)
    requires
        game.piece.rot < 4,
        game.piece.x < 255,
        config.kicks.wf(),
    ensures
        match search_keys(game, *config, target) {
            Some(p) => (r matches Some(keys) && keys@ == p),
            None => r is None,
        },
        r matches Some(keys) ==> keys_reach(game, *config, target, keys@),
        r matches Some(keys) ==> keys@.len() <= 17 && forall|i: int| 0 <= i < keys@.len() - 1 ==> keys@[i] != Move::HardDrop,
        target.2 >= 4 ==> r is None,
        target.2 < 4 && !fits_packed(target.0, target.1, game.piece.shape.rotations[target.2 as int]) ==> r is None,
        ({
            let g2 = after_move(Game { spin: Spin::NoSpin, ..game }, Move::HardDrop, *config).0;
            &&& target.2 < 4
            &&& fits_packed(target.0, target.1, game.piece.shape.rotations[target.2 as int])
            &&& fits_packed(g2.piece.x, g2.piece.y, g2.cells())
            &&& keys_reach(game, *config, target, seq![Move::HardDrop])
        }) ==> (r matches Some(keys) && keys@ == seq![Move::HardDrop]),
{
    if target.2 >= 4 {
        return None;
    }
    let target_cells = match cells_at(target.0, target.1, game.piece.shape.rotations[target.2 as usize]) {
        Some(c) => c,
        None => {
            return None;
        },
    };
    let target_compressed = compress_blocks(&target_cells);
    let tgt_2 = target.2 % 2;
    let ghost start = Game { spin: Spin::NoSpin, ..game };
    let ghost norm = search_start(game);
    let ghost orig = game;
    let ghost res = search_keys(game, *config, target);
    let mut state = game;
    state.spin = Spin::NoSpin;
    let mut passed = [0u64; 1024];
    let mut queue = [(0u8, 0u8, 0u8, Spin::NoSpin, [Move::NoMove; 16], 0usize); 2048];
    queue[0] = (state.piece.x, state.piece.y, state.piece.rot, Spin::NoSpin, [Move::NoMove; 16], 0usize);
    let mut front: usize = 0;
    let mut back: usize = 1;
    let ghost mut nodes: Seq<Reached> = seq![(start.piece.x, start.piece.y, start.piece.rot, Spin::NoSpin, Seq::<Move>::empty())];
    let ghost g2 = after_move(start, Move::HardDrop, *config).0;
    let ghost lone = fits_packed(g2.piece.x, g2.piece.y, g2.cells()) && keys_reach(
        game,
        *config,
        target,
        seq![Move::HardDrop],
    );
    proof {
        assert(start == with_pose(start, start.piece.x, start.piece.y, start.piece.rot, Spin::NoSpin));
        assert(queue[0].4@.take(0) =~= Seq::<Move>::empty());
        assert(seq![Move::HardDrop].drop_last() =~= Seq::<Move>::empty());
        assert(passed@ =~= Seq::new(1024, |i: int| 0u64));
        assert(nodes[0] == reached(queue[0]));
    }
    while front < back
        invariant
            front <= back <= 2048,
            config.kicks.wf(),
            target.2 < 4,
            start == (Game { spin: Spin::NoSpin, ..orig }),
            norm == search_start(orig),
            (Game { garbage: norm.garbage, ..start }) == norm,
            orig == game,
            state == with_pose(start, state.piece.x, state.piece.y, state.piece.rot, state.spin),
            forall|c: (u8, u8)| #[trigger] lists(target_cells, c) == occupies(target.0, target.1, orig.piece.shape.rotations[target.2 as int], c),
            packable(target_cells),
            fits_packed(target.0, target.1, orig.piece.shape.rotations[target.2 as int]),
            forall|i: int, b: int| 0 <= i < 7 && 0 <= b < 64 ==> #[trigger] bit(target_compressed[i], b) == packs(target_cells, i, b),
            tgt_2 == target.2 % 2,
            res == search_keys(game, *config, target),
            res == search_from(norm, *config, target, nodes, passed@, front as int),
            nodes.len() == back,
            forall|i: int| 0 <= i < back ==> #[trigger] nodes[i] == reached(queue[i]),
            forall|i: int| 0 <= i < back && (#[trigger] queue[i]).5 == 0 ==> queue[i].4[0] == Move::NoMove,
            forall|i: int, k: int| 0 <= i < back && 0 <= k < nodes[i].4.len() ==> (#[trigger] nodes[i].4[k]) != Move::HardDrop,
            g2 == after_move(start, Move::HardDrop, *config).0,
            lone == (fits_packed(g2.piece.x, g2.piece.y, g2.cells()) && keys_reach(
                game,
                *config,
                target,
                seq![Move::HardDrop],
            )),
            lone ==> front == 0 && back == 1 && queue[0].0 == start.piece.x && queue[0].1 == start.piece.y
                && queue[0].2 == start.piece.rot && queue[0].3 == Spin::NoSpin && queue[0].4[0] == Move::NoMove
                && queue[0].5 == 0,
            forall|i: int|
                0 <= i < back ==> {
                    let e = #[trigger] queue[i];
                    &&& e.5 <= 16
                    &&& e.2 < 4
                    &&& e.0 < 255
                    &&& run_path(start, e.4@.take(e.5 as int), *config) == (with_pose(start, e.0, e.1, e.2, e.3), true)
                },
        decreases 2048 - front,
    {
        let e = queue[front];
        let ghost ne = reached(e);
        proof {
            assert(nodes[front as int] == ne);
            if e.5 > 0 {
                assert(ne.4.last() == e.4[e.5 - 1]);
            }
        }
        front += 1;
        let last = e.4[if e.5 == 0 { 0 } else { e.5 - 1 }];
        let row = next_moves(last);
        let mut j: usize = 0;
        while j < 9 && row[j] != Move::NoMove
            invariant
                j <= 9,
                front <= back <= 2048,
                config.kicks.wf(),
                target.2 < 4,
                start == (Game { spin: Spin::NoSpin, ..orig }),
                norm == search_start(orig),
                (Game { garbage: norm.garbage, ..start }) == norm,
                orig == game,
                state == with_pose(start, state.piece.x, state.piece.y, state.piece.rot, state.spin),
                forall|c: (u8, u8)| #[trigger] lists(target_cells, c) == occupies(target.0, target.1, orig.piece.shape.rotations[target.2 as int], c),
                packable(target_cells),
                fits_packed(target.0, target.1, orig.piece.shape.rotations[target.2 as int]),
                forall|i: int, b: int| 0 <= i < 7 && 0 <= b < 64 ==> #[trigger] bit(target_compressed[i], b) == packs(target_cells, i, b),
                tgt_2 == target.2 % 2,
                forall|k: int| 0 <= k < 9 ==> #[trigger] row[k] != Move::Hold,
                row == moves_after(last_key(ne.4)),
                ne == reached(e),
                forall|k: int| 0 <= k < ne.4.len() ==> (#[trigger] ne.4[k]) != Move::HardDrop,
                res == search_keys(game, *config, target),
                res == continue_search(norm, *config, target, try_keys(norm, *config, target, nodes, passed@, ne, row, j as int), front as int),
                nodes.len() == back,
                forall|i: int| 0 <= i < back ==> #[trigger] nodes[i] == reached(queue[i]),
                forall|i: int| 0 <= i < back && (#[trigger] queue[i]).5 == 0 ==> queue[i].4[0] == Move::NoMove,
                forall|i: int, k: int| 0 <= i < back && 0 <= k < nodes[i].4.len() ==> (#[trigger] nodes[i].4[k]) != Move::HardDrop,
                g2 == after_move(start, Move::HardDrop, *config).0,
                lone == (fits_packed(g2.piece.x, g2.piece.y, g2.cells()) && keys_reach(
                    game,
                    *config,
                    target,
                    seq![Move::HardDrop],
                )),
                lone ==> front == 1 && j <= 8 && back <= 1 + j && e.0 == start.piece.x && e.1 == start.piece.y
                    && e.2 == start.piece.rot && e.3 == Spin::NoSpin && e.5 == 0 && row[8] == Move::HardDrop
                    && forall|k: int| 0 <= k < 8 ==> #[trigger] row[k] != Move::NoMove && row[k] != Move::HardDrop,
                e.5 <= 16 && e.2 < 4 && e.0 < 255,
                run_path(start, e.4@.take(e.5 as int), *config) == (with_pose(start, e.0, e.1, e.2, e.3), true),
                forall|i: int|
                    0 <= i < back ==> {
                        let f = #[trigger] queue[i];
                        &&& f.5 <= 16
                        &&& f.2 < 4
                        &&& f.0 < 255
                        &&& run_path(start, f.4@.take(f.5 as int), *config) == (with_pose(start, f.0, f.1, f.2, f.3), true)
                    },
            decreases 9 - j,
        {
            let mv = row[j];
            state.spin = e.3;
            state.piece.x = e.0;
            state.piece.y = e.1;
            state.piece.rot = e.2;
            let ghost before = state;
            let ghost gn = after_move(with_pose(norm, e.0, e.1, e.2, e.3), mv, *config);
            proof {
                assert(before == with_pose(start, e.0, e.1, e.2, e.3));
                lemma_after_move_pose(before, mv, *config);
                lemma_after_move_frame(before, with_pose(norm, e.0, e.1, e.2, e.3), mv, *config);
            }
            let ok = mv.run(&mut state, config);
            proof {
                assert(ok == gn.1);
                assert(state.piece == gn.0.piece && state.spin == gn.0.spin);
            }
            if mv == Move::HardDrop {
                if state.piece.rot % 2 == tgt_2 && state.spin == target.3 {
                    let blocks = state.piece.shape.rotations[state.piece.rot as usize];
                    let cells = match cells_at(state.piece.x, state.piece.y, blocks) {
                        Some(c) => c,
                        None => {
                            assert(blocks == gn.0.cells());
                            assert(try_keys(norm, *config, target, nodes, passed@, ne, row, j as int) == Expansion::GiveUp);
                            return None;
                        },
                    };
                    let packed = compress_blocks(&cells);
                    let mut same = true;
                    let mut w: usize = 0;
                    while w < 7
                        invariant
                            w <= 7,
                            same == forall|i: int| 0 <= i < w ==> #[trigger] packed[i] == target_compressed[i],
                        decreases 7 - w,
                    {
                        if packed[w] != target_compressed[w] {
                            same = false;
                        }
                        w += 1;
                    }
                    proof {
                        assert forall|c: (u8, u8)| #[trigger] lists(cells, c) == occupies(gn.0.piece.x, gn.0.piece.y, gn.0.cells(), c) by {
                            assert(lists(cells, c) == occupies(state.piece.x, state.piece.y, blocks, c));
                        }
                        lemma_packs_same_cells(cells, target_cells);
                        if covers_target(gn.0, norm, target) {
                            assert forall|c: (u8, u8)| #[trigger] lists(cells, c) == lists(target_cells, c) by {
                                assert(occupies(gn.0.piece.x, gn.0.piece.y, gn.0.cells(), c) == occupies(
                                    target.0,
                                    target.1,
                                    norm.piece.shape.rotations[target.2 as int],
                                    c,
                                ));
                            }
                            assert forall|i: int| 0 <= i < 7 implies #[trigger] packed[i] == target_compressed[i] by {
                                assert forall|b: int| 0 <= b < 64 implies #[trigger] bit(packed[i], b) == bit(
                                    target_compressed[i],
                                    b,
                                ) by {
                                    assert(packs(cells, i, b) == packs(target_cells, i, b));
                                }
                                crate::bits::lemma_bits_determine(packed[i], target_compressed[i]);
                            }
                        }
                        if same {
                            assert forall|i: int, b: int| 0 <= i < 7 && 0 <= b < 64 implies #[trigger] packs(cells, i, b)
                                == packs(target_cells, i, b) by {
                                assert(packed[i] == target_compressed[i]);
                                assert(bit(packed[i], b) == packs(cells, i, b));
                                assert(bit(target_compressed[i], b) == packs(target_cells, i, b));
                            }
                            assert forall|c: (u8, u8)| #[trigger] occupies(gn.0.piece.x, gn.0.piece.y, gn.0.cells(), c) == occupies(
                                target.0, target.1, norm.piece.shape.rotations[target.2 as int], c) by {
                                assert(lists(cells, c) == lists(target_cells, c));
                            }
                        }
                        assert(same == covers_target(gn.0, norm, target));
                    }
                    if same {
                        let mut keys: Vec<Move> = Vec::new();
                        let mut i: usize = 0;
                        while i < e.5
                            invariant
                                i <= e.5 <= 16,
                                keys@ == e.4@.take(i as int),
                            decreases e.5 - i,
                        {
                            keys.push(e.4[i]);
                            assert(keys@ =~= e.4@.take(i + 1));
                            i += 1;
                        }
                        keys.push(Move::HardDrop);
                        proof {
                            assert(keys@.drop_last() =~= e.4@.take(e.5 as int));
                            assert(keys@ =~= ne.4.push(Move::HardDrop));
                            assert forall|c: (u8, u8)| #[trigger] occupies(state.piece.x, state.piece.y, state.cells(), c) == occupies(
                                target.0, target.1, orig.piece.shape.rotations[target.2 as int], c) by {
                                assert(occupies(gn.0.piece.x, gn.0.piece.y, gn.0.cells(), c) == occupies(
                                    target.0, target.1, norm.piece.shape.rotations[target.2 as int], c));
                            }
                            let g1 = with_pose(start, e.0, e.1, e.2, e.3);
                            assert(run_path(start, keys@.drop_last(), *config) == (g1, true));
                            assert(before == g1);
                            assert(after_move(g1, Move::HardDrop, *config).0 == state);
                            assert(orig.piece.shape == state.piece.shape);
                        }
                        return Some(keys);
                    }
                }
            } else if ok && e.5 < 64 {
                if e.5 >= 16 {
                    return None;
                }
                let mut new_moves = e.4;
                new_moves[e.5] = mv;
                let compressed: u16 = (state.piece.x as u16 & 0b1111) | ((state.piece.y as u16 & 0b111111) << 4u16)
                    | ((state.piece.rot as u16 & 0b11) << 10u16) | ((spin_code(state.spin) & 0b11) << 12u16);
                assert(compressed == pose_key(gn.0));
                let idx = (compressed / 64) as usize;
                let bit_mask = 1u64 << ((compressed % 64) as u64);
                if passed[idx] & bit_mask == 0 {
                    passed[idx] = passed[idx] | bit_mask;
                    if back >= 2048 {
                        return None;
                    }
                    queue[back] = (state.piece.x, state.piece.y, state.piece.rot, state.spin, new_moves, e.5 + 1);
                    proof {
                        assert(new_moves@.take(e.5 + 1) =~= e.4@.take(e.5 as int).push(mv));
                        assert(new_moves@.take(e.5 + 1).drop_last() =~= e.4@.take(e.5 as int));
                        nodes = nodes.push((gn.0.piece.x, gn.0.piece.y, gn.0.piece.rot, gn.0.spin, ne.4.push(mv)));
                        assert(nodes[back as int] == reached(queue[back as int]));
                    }
                    back += 1;
                }
            }
            j += 1;
        }
        assert(try_keys(norm, *config, target, nodes, passed@, ne, row, j as int) == Expansion::Grown(nodes, passed@));
    }
    None
}

impl Move {
    /// Presses this key on `game`: moves, das, drops (a hard drop only drops
    /// the piece; locking is the caller's), turns, or holds. Returns whether
    /// the key did something.
    pub fn run(&self, game: &mut Game, config: &GameConfig) -> (r: bool)
        requires
            old(game).piece.rot < 4,
            config.kicks.wf(),
            *self == Move::DasRight ==> old(game).piece.x < 255,
            *self == Move::Hold ==> old(game).hold is Some || old(game).queue_ptr < 32,
        ensures
            *self != Move::Hold ==> (*final(game), r) == after_move(*old(game), *self, *config),
            *self == Move::Hold ==> r && *final(game) == old(game).after_hold(),
    {
        match self {
            Move::NoMove => false,
            Move::Left => game.move_left(),
            Move::Right => game.move_right(),
            Move::SoftDrop => game.soft_drop(),
            Move::CCW => game.rotate(3, config).0,
            Move::CW => game.rotate(1, config).0,
            Move::Flip => game.rotate(2, config).0,
            Move::DasLeft => game.das_left(),
            Move::DasRight => game.das_right(),
            Move::HardDrop => {
                game.soft_drop();
                true
            },
            Move::Hold => game.hold(),
        }
    }
}

} // verus!
