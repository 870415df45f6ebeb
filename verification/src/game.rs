use vstd::prelude::*;
use std::collections::VecDeque;
use crate::board::{Board, BOARD_BUFFER, BOARD_HEIGHT, BOARD_WIDTH};
use crate::piece::{
    CollisionMap, Corner, Falling, KickTable, Mino, MinoData, MinoTable, Spin, SpinBonuses,
};
use crate::bits::{bit, col_bits, count_range, keep_rows, pad_rows, lemma_or_single};

verus! {

/// The rules of a match that the engine applies.
#[derive(Clone)]
pub struct GameConfig {
    pub kicks: KickTable,
    pub spins: SpinBonuses,
    pub b2b_charging: bool,
    pub b2b_charge_at: i16,
    pub b2b_charge_base: i16,
    pub pc_b2b: u16,
    pub pc_send: u16,
    pub garbage_special_bonus: bool,
}

/// Incoming garbage: `amt` rows with the hole at column `col`, arriving when
/// `time` reaches 0.
#[derive(Clone, Copy, Debug)]
pub struct Garbage {
    pub col: u8,
    pub amt: u8,
    pub time: u8,
}

/// `x + 1` on a byte, wrapping at 256.
pub open spec fn up(x: u8) -> u8 {
    if x == 255 { 0 } else { (x + 1) as u8 }
}

/// `x - 1` on a byte, wrapping at 0.
pub open spec fn down(x: u8) -> u8 {
    if x == 0 { 255 } else { (x - 1) as u8 }
}

/// The column at which a piece of width `w` spawns.
pub open spec fn spawn_x(w: u8) -> u8 {
    ((10 + w) / 2 - 1) as u8
}

/// The row at which pieces spawn.
pub open spec fn spawn_y() -> u8 {
    22
}

fn spawn_column(w: u8) -> (r: u8)
    ensures
        r == spawn_x(w),
{
    ((BOARD_WIDTH + w as usize) / 2) as u8 - 1
}

/// What locking a piece did, for the caller to turn into outgoing garbage.
#[derive(Clone, Copy, Debug)]
pub struct LockResult {
    /// Rows cleared.
    pub cleared: u8,
    /// Whether a cleared row was a garbage row.
    pub garbage_cleared: bool,
    /// Whether, afterwards, some column reaches row 39 (the top row of the
    /// field); the rules' perfect-clear bonuses are paid on this.
    pub pc: bool,
    /// Whether the special garbage bonus applies.
    pub special_bonus: bool,
    /// The back-to-back count that this clear broke, if it broke one.
    pub broke_b2b: Option<i16>,
    /// The kind of clear: `Normal` for four rows, the spin for fewer, none
    /// without a clear.
    pub clear_type: Option<Spin>,
}

/// The charge of a broken chain `b` can be worked out in 16 bits.
pub open spec fn charge_fits(b: i16, config: GameConfig) -> bool {
    &&& b < i16::MAX
    &&& b + 1 > config.b2b_charge_at ==> {
        &&& i16::MIN <= b - config.b2b_charge_at <= i16::MAX
        &&& i16::MIN <= b - config.b2b_charge_at + config.b2b_charge_base <= i16::MAX
        &&& i16::MIN <= b - config.b2b_charge_at + config.b2b_charge_base + 1 <= i16::MAX
    }
}

/// The rows of back-to-back charge that breaking the chain `broke_b2b`
/// releases, before the garbage multiplier: with charging on, a chain whose
/// count plus one exceeds `b2b_charge_at` releases
/// `b2b - b2b_charge_at + b2b_charge_base + 1` rows.
pub fn b2b_charge(broke_b2b: Option<i16>, config: &GameConfig) -> (r: Option<i16>)
    requires
        broke_b2b is Some && config.b2b_charging ==> charge_fits(broke_b2b->0, *config),
    ensures
        r == match broke_b2b {
            Some(b) => if config.b2b_charging && b + 1 > config.b2b_charge_at {
                Some((b - config.b2b_charge_at + config.b2b_charge_base + 1) as i16)
            } else {
                None
            },
            None => None,
        },
{
    match broke_b2b {
        Some(b) => {
            if config.b2b_charging && b + 1 > config.b2b_charge_at {
                Some(b - config.b2b_charge_at + config.b2b_charge_base + 1)
            } else {
                None
            }
        },
        None => None,
    }
}

pub open spec fn max4(a: u8, b: u8, c: u8, d: u8) -> u8 {
    let m1 = if a >= b { a } else { b };
    let m2 = if c >= d { c } else { d };
    if m1 >= m2 { m1 } else { m2 }
}

pub open spec fn min4(a: u8, b: u8, c: u8, d: u8) -> u8 {
    let m1 = if a <= b { a } else { b };
    let m2 = if c <= d { c } else { d };
    if m1 <= m2 { m1 } else { m2 }
}

/// The queue left after an attack of `sent` rows cancels queued garbage from
/// the front, and the part of the attack left over.
pub open spec fn cancel(q: Seq<Garbage>, sent: int) -> (Seq<Garbage>, int)
    decreases q.len(),
{
    if sent <= 0 || q.len() == 0 {
        (q, sent)
    } else if q[0].amt > sent {
        (q.update(0, Garbage { amt: (q[0].amt - sent) as u8, ..q[0] }), 0)
    } else {
        cancel(q.drop_first(), sent - q[0].amt)
    }
}

/// How many entries at the front of `q` have arrived (time 0).
pub open spec fn due_count(q: Seq<Garbage>) -> nat
    decreases q.len(),
{
    if q.len() == 0 || q[0].time != 0 {
        0
    } else {
        1 + due_count(q.drop_first())
    }
}

/// The cells of a board (given by `f`) after the garbage `g` is pushed in
/// from the floor (see `Board::insert_garbage`).
pub open spec fn raise(f: spec_fn(int, int) -> bool, g: Garbage) -> spec_fn(int, int) -> bool {
    |x: int, y: int|
        if g.amt == 0 {
            f(x, y)
        } else if y < g.amt {
            x != g.col
        } else {
            y < 40 && f(x, y - g.amt)
        }
}

/// The cells after all of `gs` is pushed in, in order.
pub open spec fn with_garbage(f: spec_fn(int, int) -> bool, gs: Seq<Garbage>) -> spec_fn(int, int) -> bool
    decreases gs.len(),
{
    if gs.len() == 0 {
        f
    } else {
        raise(with_garbage(f, gs.drop_last()), gs.last())
    }
}

/// The garbage height after all of `gs` is pushed in, in order.
pub open spec fn garbage_height(h: int, gs: Seq<Garbage>) -> int
    decreases gs.len(),
{
    if gs.len() == 0 {
        h
    } else {
        let h0 = garbage_height(h, gs.drop_last());
        let a = gs.last().amt;
        if a == 0 {
            h0
        } else if h0 + a > 40 {
            40
        } else {
            h0 + a
        }
    }
}

/// One step of the garbage timers: every positive time drops by one.
pub open spec fn tick(q: Seq<Garbage>) -> Seq<Garbage> {
    q.map_values(|g: Garbage| if g.time > 0 { Garbage { time: (g.time - 1) as u8, ..g } } else { g })
}

pub proof fn lemma_due_count_ge(q: Seq<Garbage>, k: int)
    requires
        0 <= k <= q.len(),
        forall|i: int| 0 <= i < k ==> (#[trigger] q[i]).time == 0,
    ensures
        due_count(q) >= k,
    decreases k,
{
    if k > 0 {
        assert forall|i: int| 0 <= i < k - 1 implies (#[trigger] q.drop_first()[i]).time == 0 by {
            assert(q.drop_first()[i] == q[i + 1]);
        }
        lemma_due_count_ge(q.drop_first(), k - 1);
    }
}

pub proof fn lemma_due_count(q: Seq<Garbage>, j: int)
    requires
        0 <= j <= q.len(),
        forall|i: int| 0 <= i < j ==> (#[trigger] q[i]).time == 0,
        j == q.len() || q[j].time != 0,
    ensures
        due_count(q) == j,
    decreases j,
{
    if j > 0 {
        lemma_due_count(q.drop_first(), j - 1);
    }
}

/// The state of one player's game.
pub struct Game {
    pub board: Board,
    pub queue: [Mino; 32],
    pub queue_ptr: usize,
    pub b2b: i16,
    pub combo: i16,
    pub hold: Option<Mino>,
    pub piece: Falling,
    pub garbage: VecDeque<Garbage>,
    pub collision_map: CollisionMap,
    pub spin: Spin,
    pub minos: MinoTable,
}

/// The column a piece at `x` reaches moving right until the next column
/// collides.
pub open spec fn slide_right(cm: CollisionMap, x: int, y: int, rot: int) -> int
    decreases 255 - x,
{
    if x >= 255 || cm.hits(x + 1, y, rot) {
        x
    } else {
        slide_right(cm, x + 1, y, rot)
    }
}

/// The column a piece at `x` reaches moving left until the next column
/// collides (column 0 at the latest).
pub open spec fn slide_left(cm: CollisionMap, x: int, y: int, rot: int) -> int
    decreases x,
{
    if x <= 0 || cm.hits(x - 1, y, rot) {
        x
    } else {
        slide_left(cm, x - 1, y, rot)
    }
}

/// The row a piece at (`x`, `y`) comes to rest on when dropped straight down.
pub open spec fn rest_y(cm: CollisionMap, x: u8, y: int, rot: int) -> int
    decreases y,
{
    if y > 0 && !cm.hits(x as int, y - 1, rot) {
        rest_y(cm, x, y - 1, rot)
    } else {
        y
    }
}

/// The cell that corner `c` of a piece at (`x`, `y`) looks at.
pub open spec fn corner_cell(x: i8, y: i8, c: Corner) -> (i8, i8) {
    (x.wrapping_sub(c.0.0).wrapping_add(1), y.wrapping_sub(c.0.1).wrapping_sub(1))
}

/// Whether corner `c` faces forward in rotation `rot`.
pub open spec fn faces_front(c: Corner, rot: u8) -> bool {
    match c.1 {
        Some(rs) => rot == rs.0 || rot == rs.1,
        None => false,
    }
}

/// The spin a ruleset awards, given the three-corner verdict for a T piece
/// (`t_status`), whether the piece is immobile, whether the cell below
/// the piece is blocked (`grounded`) and the three-corner verdict for any
/// piece (`corner_status`).
pub open spec fn spin_award(
    spins: SpinBonuses,
    is_t: bool,
    t_status: Spin,
    immobile: bool,
    grounded: bool,
    corner_status: Spin,
) -> Spin {
    match spins {
        SpinBonuses::NoSpins => Spin::NoSpin,
        SpinBonuses::Stupid => if grounded { Spin::Normal } else { Spin::NoSpin },
        SpinBonuses::TSpins => t_status,
        SpinBonuses::TSpinsPlus => if t_status != Spin::NoSpin {
            t_status
        } else if immobile && is_t {
            Spin::Mini
        } else {
            Spin::NoSpin
        },
        SpinBonuses::All => if is_t {
            t_status
        } else if immobile {
            Spin::Normal
        } else {
            Spin::NoSpin
        },
        SpinBonuses::AllMini => if is_t {
            t_status
        } else if immobile {
            Spin::Mini
        } else {
            Spin::NoSpin
        },
        SpinBonuses::AllPlus => if is_t {
            if t_status != Spin::NoSpin {
                t_status
            } else if immobile {
                Spin::Mini
            } else {
                Spin::NoSpin
            }
        } else if immobile {
            Spin::Normal
        } else {
            Spin::NoSpin
        },
        SpinBonuses::AllMiniPlus => if is_t {
            if t_status != Spin::NoSpin {
                t_status
            } else if immobile {
                Spin::Mini
            } else {
                Spin::NoSpin
            }
        } else if immobile {
            Spin::Mini
        } else {
            Spin::NoSpin
        },
        SpinBonuses::MiniOnly => if t_status != Spin::NoSpin || immobile { Spin::Mini } else { Spin::NoSpin },
        SpinBonuses::Handheld => corner_status,
    }
}

/// The rulesets under which a piece that cannot move counts as spun.
pub open spec fn immobility_counts(spins: SpinBonuses) -> bool {
    match spins {
        SpinBonuses::All | SpinBonuses::AllPlus | SpinBonuses::AllMini | SpinBonuses::AllMiniPlus
        | SpinBonuses::MiniOnly => true,
        _ => false,
    }
}

/// Whether a rotation from `from` to `to` with kick (`dx`, `dy`) is one of
/// the kicks that always count as a full spin (T-spin triple / fin kicks).
pub open spec fn tst_or_fin(from: u8, to: u8, dx: i8, dy: i8) -> bool {
    (((from == 2 && to == 3) || (from == 0 && to == 3)) && dx == 1 && dy == -2) || (((from == 2 && to == 1)
        || (from == 0 && to == 1)) && dx == -1 && dy == -2)
}

/// The column a kick of `dx` takes a piece at `x` to.
pub open spec fn kick_x(x: u8, dx: i8) -> u8 {
    ((x as i8).wrapping_add(dx)) as u8
}

/// The row a kick of `dy` takes a piece at `y` to.
pub open spec fn kick_y(y: u8, dy: i8) -> u8 {
    ((y as i8).wrapping_sub(dy)) as u8
}

pub proof fn lemma_rest_y_bounds(cm: CollisionMap, x: u8, y: int, rot: int)
    requires
        y >= 0,
    ensures
        0 <= rest_y(cm, x, y, rot) <= y,
    decreases y,
{
    if y > 0 && !cm.hits(x as int, y - 1, rot) {
        lemma_rest_y_bounds(cm, x, y - 1, rot);
    }
}

impl Game {
    /// The counters, queue, hold, piece, collision map and spin are as in `o`.
    pub open spec fn frame_eq(&self, o: Game) -> bool {
        &&& self.queue == o.queue
        &&& self.queue_ptr == o.queue_ptr
        &&& self.b2b == o.b2b
        &&& self.combo == o.combo
        &&& self.hold == o.hold
        &&& self.piece == o.piece
        &&& self.collision_map == o.collision_map
        &&& self.spin == o.spin
        &&& self.minos == o.minos
    }

    /// Everything but the falling piece is as in `o`.
    pub open spec fn same_but_piece(&self, o: Game) -> bool {
        &&& self.board == o.board
        &&& self.queue == o.queue
        &&& self.queue_ptr == o.queue_ptr
        &&& self.b2b == o.b2b
        &&& self.combo == o.combo
        &&& self.hold == o.hold
        &&& self.garbage == o.garbage
        &&& self.collision_map == o.collision_map
        &&& self.spin == o.spin
        &&& self.minos == o.minos
    }

    /// Whether the falling piece would collide at (`x`, `y`) in its rotation.
    pub open spec fn hits(&self, x: int, y: int) -> bool {
        self.collision_map.hits(x, y, self.piece.rot as int)
    }

    /// The collision map matches the board and the falling piece's cells.
    pub open spec fn map_fresh(&self) -> bool {
        self.collision_map.describes(self.board.cols, self.piece.shape)
    }

    /// A new game: empty board, `piece` falling at its spawn point, no hold,
    /// no garbage, back-to-back and combo at -1.
    pub fn new(piece: Mino, queue: [Mino; 32], minos: MinoTable) -> (g: Game)
        requires
            minos.wf(),
        ensures
            forall|x: int| 0 <= x < 10 ==> g.board.cols[x] == 0,
            g.board.garbage == 0,
            g.queue == queue,
            g.queue_ptr == 0,
            g.b2b == -1,
            g.combo == -1,
            g.hold is None,
            g.piece == (Falling {
                x: spawn_x(minos.data(piece).width),
                y: spawn_y(),
                rot: 0,
                mino: piece,
                shape: minos.data(piece),
            }),
            g.garbage@ == Seq::<Garbage>::empty(),
            g.map_fresh(),
            g.spin == Spin::NoSpin,
            g.minos == minos,
    {
        let data = minos.get(piece);
        let board = Board::new();
        let falling = Falling {
            x: spawn_column(data.width),
            y: (BOARD_HEIGHT - BOARD_BUFFER) as u8 + 2,
            rot: 0,
            mino: piece,
            shape: data,
        };
        let collision_map = board.collision_map(&falling);
        let g = Game {
            b2b: -1,
            combo: -1,
            board,
            queue,
            queue_ptr: 0,
            hold: None,
            piece: falling,
            garbage: VecDeque::new(),
            collision_map,
            spin: Spin::NoSpin,
            minos,
        };
        g
    }

    /// Whether the falling piece can move in none of the four directions.
    pub fn is_immobile(&self) -> (r: bool)
        requires
            self.piece.rot < 4,
        ensures
            r == (self.hits(self.piece.x as int, up(self.piece.y) as int) && self.hits(
                up(self.piece.x) as int,
                self.piece.y as int,
            ) && self.hits(self.piece.x as int, down(self.piece.y) as int) && self.hits(
                down(self.piece.x) as int,
                self.piece.y as int,
            )),
    {
        let p = self.piece;
        self.collision_map.test(p.x, p.y.wrapping_add(1), p.rot) && self.collision_map.test(
            p.x.wrapping_add(1),
            p.y,
            p.rot,
        ) && self.collision_map.test(p.x, p.y.wrapping_sub(1), p.rot) && self.collision_map.test(
            p.x.wrapping_sub(1),
            p.y,
            p.rot,
        )
    }

    /// Moves the piece one column left unless that collides.
    pub fn move_left(&mut self) -> (r: bool)
        requires
            old(self).piece.rot < 4,
        ensures
            r == !old(self).hits(down(old(self).piece.x) as int, old(self).piece.y as int),
            r ==> final(self).piece == (Falling { x: down(old(self).piece.x), ..old(self).piece }),
            !r ==> final(self).piece == old(self).piece,
            final(self).same_but_piece(*old(self)),
    {
        let nx = self.piece.x.wrapping_sub(1);
        if self.collision_map.test(nx, self.piece.y, self.piece.rot) {
            return false;
        }
        self.piece.x = nx;
        true
    }

    /// Moves the piece one column right unless that collides.
    pub fn move_right(&mut self) -> (r: bool)
        requires
            old(self).piece.rot < 4,
        ensures
            r == !old(self).hits(up(old(self).piece.x) as int, old(self).piece.y as int),
            r ==> final(self).piece == (Falling { x: up(old(self).piece.x), ..old(self).piece }),
            !r ==> final(self).piece == old(self).piece,
            final(self).same_but_piece(*old(self)),
    {
        let nx = self.piece.x.wrapping_add(1);
        if self.collision_map.test(nx, self.piece.y, self.piece.rot) {
            return false;
        }
        self.piece.x = nx;
        true
    }

    /// Moves the piece right until the next column collides.
    pub fn das_right(&mut self) -> (moved: bool)
        requires
            old(self).piece.rot < 4,
            old(self).piece.x < 255,
        ensures
            final(self).piece == (Falling { x: final(self).piece.x, ..old(self).piece }),
            old(self).piece.x <= final(self).piece.x < 255,
            forall|z: int| old(self).piece.x < z <= final(self).piece.x ==> !#[trigger] old(self).hits(z, old(self).piece.y as int),
            old(self).hits(final(self).piece.x + 1, old(self).piece.y as int),
            final(self).piece.x == slide_right(old(self).collision_map, old(self).piece.x as int, old(self).piece.y as int, old(self).piece.rot as int),
            moved == (final(self).piece.x != old(self).piece.x),
            final(self).same_but_piece(*old(self)),
    {
        let mut x = self.piece.x;
        let mut moved = false;
        while !self.collision_map.test(x + 1, self.piece.y, self.piece.rot)
            invariant
                self.piece.rot < 4,
                old(self).piece.x <= x < 12 || x == old(self).piece.x,
                x < 255,
                *self == *old(self),
                moved == (x != old(self).piece.x),
                forall|z: int| old(self).piece.x < z <= x ==> !#[trigger] self.hits(z, self.piece.y as int),
                slide_right(self.collision_map, x as int, self.piece.y as int, self.piece.rot as int)
                    == slide_right(self.collision_map, old(self).piece.x as int, self.piece.y as int, self.piece.rot as int),
            decreases 255 - x,
        {
            moved = true;
            x = x + 1;
        }
        self.piece.x = x;
        moved
    }

    /// Moves the piece left until the next column collides.
    pub fn das_left(&mut self) -> (moved: bool)
        requires
            old(self).piece.rot < 4,
        ensures
            final(self).piece == (Falling { x: final(self).piece.x, ..old(self).piece }),
            final(self).piece.x <= old(self).piece.x,
            forall|z: int| final(self).piece.x <= z < old(self).piece.x ==> !#[trigger] old(self).hits(z, old(self).piece.y as int),
            old(self).hits(down(final(self).piece.x) as int, old(self).piece.y as int),
            final(self).piece.x == slide_left(old(self).collision_map, old(self).piece.x as int, old(self).piece.y as int, old(self).piece.rot as int),
            moved == (final(self).piece.x != old(self).piece.x),
            final(self).same_but_piece(*old(self)),
    {
        let mut x = self.piece.x;
        let mut moved = false;
        while !self.collision_map.test(x.wrapping_sub(1), self.piece.y, self.piece.rot)
            invariant
                self.piece.rot < 4,
                x <= old(self).piece.x,
                *self == *old(self),
                moved == (x != old(self).piece.x),
                forall|z: int| x <= z < old(self).piece.x ==> !#[trigger] self.hits(z, self.piece.y as int),
                slide_left(self.collision_map, x as int, self.piece.y as int, self.piece.rot as int)
                    == slide_left(self.collision_map, old(self).piece.x as int, self.piece.y as int, self.piece.rot as int),
            decreases x,
        {
            moved = true;
            x = x - 1;
        }
        self.piece.x = x;
        moved
    }

    /// Drops the piece straight down as far as it goes.
    pub fn soft_drop(&mut self) -> (moved: bool)
        requires
            old(self).piece.rot < 4,
        ensures
            final(self).piece == (Falling {
                y: rest_y(old(self).collision_map, old(self).piece.x, old(self).piece.y as int, old(self).piece.rot as int) as u8,
                ..old(self).piece
            }),
            moved == (final(self).piece.y != old(self).piece.y),
            final(self).same_but_piece(*old(self)),
    {
        let piece_x = self.piece.x;
        let mut piece_y = self.piece.y;
        let mut moved = false;
        while piece_y > 0 && !self.collision_map.test(piece_x, piece_y - 1, self.piece.rot)
            invariant
                self.piece.rot < 4,
                *self == *old(self),
                piece_x == self.piece.x,
                piece_y <= self.piece.y,
                moved == (piece_y != self.piece.y),
                rest_y(self.collision_map, piece_x, piece_y as int, self.piece.rot as int)
                    == rest_y(self.collision_map, piece_x, self.piece.y as int, self.piece.rot as int),
            decreases piece_y,
        {
            moved = true;
            piece_y = piece_y - 1;
        }
        self.piece.y = piece_y;
        moved
    }

    /// The game with the next piece of the queue taken and put at its spawn
    /// point in rotation 0.
    pub open spec fn advanced(&self) -> Game {
        let m = self.queue[self.queue_ptr as int];
        Game {
            queue_ptr: (self.queue_ptr + 1) as usize,
            piece: Falling {
                x: spawn_x(self.minos.data(m).width),
                y: spawn_y(),
                rot: 0,
                mino: m,
                shape: self.minos.data(m),
            },
            ..*self
        }
    }

    /// Takes the next piece from the queue and puts it at its spawn point in
    /// rotation 0.
    pub fn next_piece(&mut self)
        requires
            old(self).queue_ptr < 32,
        ensures
            *final(self) == old(self).advanced(),
    {
        let next = self.queue[self.queue_ptr];
        self.queue_ptr = self.queue_ptr + 1;
        let data = self.minos.get(next);
        self.piece.mino = next;
        self.piece.shape = data;
        self.piece.x = spawn_column(data.width);
        self.piece.y = (BOARD_HEIGHT - BOARD_BUFFER) as u8 + 2;
        self.piece.rot = 0;
    }

    /// The game after the hold key: the falling piece goes to the hold; the
    /// held piece, if any, spawns keeping the current rotation, else the next
    /// piece of the queue spawns. The collision map is left as it was.
    pub open spec fn after_hold(&self) -> Game {
        match self.hold {
            Some(h) => Game {
                hold: Some(self.piece.mino),
                piece: Falling {
                    x: spawn_x(self.minos.data(h).width),
                    y: spawn_y(),
                    rot: self.piece.rot,
                    mino: h,
                    shape: self.minos.data(h),
                },
                ..*self
            },
            None => Game { hold: Some(self.piece.mino), ..*self }.advanced(),
        }
    }

    /// Swaps the falling piece with the held one (which spawns keeping the
    /// current rotation), or, with nothing held, holds it and takes the next
    /// piece from the queue. The collision map is left for the caller to
    /// regenerate.
    pub fn hold(&mut self) -> (r: bool)
        requires
            old(self).hold is Some || old(self).queue_ptr < 32,
        ensures
            r,
            *final(self) == old(self).after_hold(),
    {
        if let Some(held) = self.hold {
            self.hold = Some(self.piece.mino);
            let data = self.minos.get(held);
            self.piece.mino = held;
            self.piece.shape = data;
            self.piece.x = spawn_column(data.width);
            self.piece.y = (BOARD_HEIGHT - BOARD_BUFFER) as u8 + 2;
        } else {
            self.hold = Some(self.piece.mino);
            self.next_piece();
        }
        true
    }

    /// Whether the spin-detection corner `c` of the falling piece is blocked.
    pub open spec fn corner_blocked(&self, c: Corner) -> bool {
        let cell = corner_cell(self.piece.x as i8, self.piece.y as i8, c);
        self.board.occupied(cell.0 as int, cell.1 as int)
    }

    /// The three-corner verdict for the falling piece: none without corner
    /// data or when the cell below is free; otherwise a spin when at least
    /// three corners are blocked, mini for a T piece with other than two
    /// front corners blocked unless the kick was a T-spin-triple or fin kick.
    pub open spec fn corner_spin(&self, is_tst_or_fin: bool) -> Spin {
        match self.piece.shape.corners {
            None => Spin::NoSpin,
            Some(table) => {
                let t = table[self.piece.rot as int];
                let n = count_range(|i: int| self.corner_blocked(t[i]), 0, 4);
                let front = count_range(|i: int| self.corner_blocked(t[i]) && faces_front(t[i], self.piece.rot), 0, 4);
                if !self.hits(self.piece.x as int, down(self.piece.y) as int) {
                    Spin::NoSpin
                } else if n < 3 {
                    Spin::NoSpin
                } else if is_tst_or_fin {
                    Spin::Normal
                } else if self.piece.mino == Mino::T && front != 2 {
                    Spin::Mini
                } else {
                    Spin::Normal
                }
            },
        }
    }

    /// Whether the piece can move in none of the four directions.
    pub open spec fn immobile(&self) -> bool {
        self.hits(self.piece.x as int, up(self.piece.y) as int) && self.hits(up(self.piece.x) as int, self.piece.y as int)
            && self.hits(self.piece.x as int, down(self.piece.y) as int) && self.hits(
            down(self.piece.x) as int,
            self.piece.y as int,
        )
    }

    /// The spin that the ruleset `spins` gives the piece where it stands.
    pub open spec fn awarded_spin(&self, is_tst_or_fin: bool, spins: SpinBonuses) -> Spin {
        let is_t = self.piece.mino == Mino::T;
        spin_award(
            spins,
            is_t,
            if is_t { self.corner_spin(is_tst_or_fin) } else { Spin::NoSpin },
            immobility_counts(spins) && self.immobile(),
            self.hits(self.piece.x as int, down(self.piece.y) as int),
            self.corner_spin(is_tst_or_fin),
        )
    }

    /// The three-corner spin check for the falling piece.
    pub fn detect_spin(&self, is_tst_or_fin: bool) -> (r: Spin)
        requires
            self.piece.rot < 4,
        ensures
            r == self.corner_spin(is_tst_or_fin),
    {
        let x = #[verifier::truncate] (self.piece.x as i8);
        let y = #[verifier::truncate] (self.piece.y as i8);
        let table = match self.piece.shape.corners {
            Some(t) => t,
            None => {
                return Spin::NoSpin;
            },
        };
        if !self.collision_map.test(self.piece.x, self.piece.y.wrapping_sub(1), self.piece.rot) {
            return Spin::NoSpin;
        }
        let t = table[self.piece.rot as usize];
        let ghost p = |i: int| self.corner_blocked(t[i]);
        let ghost q = |i: int| self.corner_blocked(t[i]) && faces_front(t[i], self.piece.rot);
        let mut corners: u8 = 0;
        let mut front_corners: u8 = 0;
        let mut i: usize = 4;
        while i > 0
            invariant
                i <= 4,
                self.piece.rot < 4,
                x == self.piece.x as i8,
                y == self.piece.y as i8,
                self.piece.shape.corners == Some(table),
                t == table[self.piece.rot as int],
                p == (|i: int| self.corner_blocked(t[i])),
                q == (|i: int| self.corner_blocked(t[i]) && faces_front(t[i], self.piece.rot)),
                corners == count_range(p, i as int, 4),
                front_corners == count_range(q, i as int, 4),
                corners <= 4 - i,
                front_corners <= 4 - i,
            decreases i,
        {
            i = i - 1;
            let c = t[i];
            let cx = x.wrapping_sub(c.0.0).wrapping_add(1);
            let cy = y.wrapping_sub(c.0.1).wrapping_sub(1);
            if self.board.is_occupied(cx, cy) {
                corners = corners + 1;
                if let Some((r1, r2)) = c.1 {
                    if self.piece.rot == r1 || self.piece.rot == r2 {
                        front_corners = front_corners + 1;
                    }
                }
            }
            assert(count_range(p, i as int, 4) == (if p(i as int) { 1nat } else { 0nat }) + count_range(p, i + 1, 4));
            assert(count_range(q, i as int, 4) == (if q(i as int) { 1nat } else { 0nat }) + count_range(q, i + 1, 4));
        }
        if corners < 3 {
            return Spin::NoSpin;
        }
        let mut spin = Spin::Normal;
        if self.piece.mino == Mino::T && front_corners != 2 {
            spin = Spin::Mini;
        }
        if is_tst_or_fin {
            spin = Spin::Normal;
        }
        spin
    }

    /// Sets the spin that the ruleset awards the piece where it stands; with
    /// spins off nothing changes.
    pub fn update_spin(&mut self, is_tst_or_fin: bool, config: &GameConfig)
        requires
            old(self).piece.rot < 4,
        ensures
            config.spins == SpinBonuses::NoSpins ==> final(self).spin == old(self).spin,
            config.spins != SpinBonuses::NoSpins ==> final(self).spin == old(self).awarded_spin(is_tst_or_fin, config.spins),
            final(self).board == old(self).board,
            final(self).piece == old(self).piece,
            final(self).collision_map == old(self).collision_map,
            final(self).queue == old(self).queue,
            final(self).queue_ptr == old(self).queue_ptr,
            final(self).hold == old(self).hold,
            final(self).b2b == old(self).b2b,
            final(self).combo == old(self).combo,
            final(self).garbage == old(self).garbage,
            final(self).minos == old(self).minos,
    {
        if config.spins == SpinBonuses::NoSpins {
            return;
        }
        let is_t = self.piece.mino == Mino::T;
        let t_status = if is_t { self.detect_spin(is_tst_or_fin) } else { Spin::NoSpin };
        let immobile = match config.spins {
            SpinBonuses::All | SpinBonuses::AllPlus | SpinBonuses::AllMini | SpinBonuses::AllMiniPlus
            | SpinBonuses::MiniOnly => self.is_immobile(),
            _ => false,
        };
        let p = self.piece;
        self.spin = match config.spins {
            SpinBonuses::NoSpins => Spin::NoSpin,
            SpinBonuses::Stupid => {
                if self.collision_map.test(p.x, p.y.wrapping_sub(1), p.rot) {
                    Spin::Normal
                } else {
                    Spin::NoSpin
                }
            },
            SpinBonuses::TSpins => t_status,
            SpinBonuses::TSpinsPlus => {
                if t_status != Spin::NoSpin {
                    t_status
                } else if immobile && is_t {
                    Spin::Mini
                } else {
                    Spin::NoSpin
                }
            },
            SpinBonuses::All => {
                if is_t {
                    t_status
                } else if immobile {
                    Spin::Normal
                } else {
                    Spin::NoSpin
                }
            },
            SpinBonuses::AllMini => {
                if is_t {
                    t_status
                } else if immobile {
                    Spin::Mini
                } else {
                    Spin::NoSpin
                }
            },
            SpinBonuses::AllPlus => {
                if is_t {
                    if t_status != Spin::NoSpin {
                        t_status
                    } else if immobile {
                        Spin::Mini
                    } else {
                        Spin::NoSpin
                    }
                } else if immobile {
                    Spin::Normal
                } else {
                    Spin::NoSpin
                }
            },
            SpinBonuses::AllMiniPlus => {
                if is_t {
                    if t_status != Spin::NoSpin {
                        t_status
                    } else if immobile {
                        Spin::Mini
                    } else {
                        Spin::NoSpin
                    }
                } else if immobile {
                    Spin::Mini
                } else {
                    Spin::NoSpin
                }
            },
            SpinBonuses::MiniOnly => {
                if t_status != Spin::NoSpin {
                    Spin::Mini
                } else if immobile {
                    Spin::Mini
                } else {
                    Spin::NoSpin
                }
            },
            SpinBonuses::Handheld => self.detect_spin(is_tst_or_fin),
        };
    }

    /// The first kick from position `k` on in `kicks` whose target is free
    /// for rotation `to` (`kicks.len()` when none is).
    pub open spec fn first_free_kick(&self, kicks: Seq<(i8, i8)>, to: int, k: int) -> int
        decreases kicks.len() - k,
    {
        if k >= kicks.len() || k < 0 {
            kicks.len() as int
        } else if !self.collision_map.hits(
            kick_x(self.piece.x, kicks[k].0) as int,
            kick_y(self.piece.y, kicks[k].1) as int,
            to,
        ) {
            k
        } else {
            self.first_free_kick(kicks, to, k + 1)
        }
    }

    /// Where turning the piece by `amount` quarter turns puts it: in place if
    /// that is free, else at the first free kick; with whether a kick was
    /// used and whether it was a T-spin-triple or fin kick. None when every
    /// test collides.
    pub open spec fn rotation(&self, amount: u8, config: &GameConfig) -> Option<(Falling, bool, bool)> {
        let p = self.piece;
        let to = ((p.rot + amount) % 4) as u8;
        let kicks = config.kicks.tests(p.mino, p.rot as int, to as int);
        let k = self.first_free_kick(kicks, to as int, 0);
        if !self.collision_map.hits(p.x as int, p.y as int, to as int) {
            Some((Falling { rot: to, ..p }, false, false))
        } else if k < kicks.len() {
            Some(
                (
                    Falling { x: kick_x(p.x, kicks[k].0), y: kick_y(p.y, kicks[k].1), rot: to, ..p },
                    true,
                    tst_or_fin(p.rot, to, kicks[k].0, kicks[k].1),
                ),
            )
        } else {
            None
        }
    }

    /// The spin after the piece turned into `np`.
    pub open spec fn spin_after_turn(&self, np: Falling, special: bool, spins: SpinBonuses) -> Spin {
        if spins == SpinBonuses::NoSpins {
            self.spin
        } else {
            (Game { piece: np, ..*self }).awarded_spin(special, spins)
        }
    }

    /// Rotates the piece by `amount` quarter turns clockwise: in place if
    /// that is free, else at the first free kick of the rotation system. On
    /// success the spin is updated. Returns whether it rotated and whether a
    /// kick was used.
    pub fn rotate(&mut self, amount: u8, config: &GameConfig) -> (r: (bool, bool))
        requires
            old(self).piece.rot < 4,
            old(self).piece.rot + amount <= 255,
            config.kicks.wf(),
        ensures
            match old(self).rotation(amount, config) {
                Some((np, kicked, special)) => {
                    &&& r == (true, kicked)
                    &&& final(self).piece == np
                    &&& final(self).spin == old(self).spin_after_turn(np, special, config.spins)
                },
                None => {
                    &&& r == (false, false)
                    &&& final(self).piece == old(self).piece
                    &&& final(self).spin == old(self).spin
                },
            },
            final(self).board == old(self).board,
            final(self).collision_map == old(self).collision_map,
            final(self).queue == old(self).queue,
            final(self).queue_ptr == old(self).queue_ptr,
            final(self).hold == old(self).hold,
            final(self).b2b == old(self).b2b,
            final(self).combo == old(self).combo,
            final(self).garbage == old(self).garbage,
            final(self).minos == old(self).minos,
    {
        let to = (self.piece.rot + amount) % 4;
        let mut res = (false, false, false);
        if !self.collision_map.test(self.piece.x, self.piece.y, to) {
            self.piece.rot = to;
            res = (true, false, false);
        }
        if !res.0 {
            let from = self.piece.rot;
            let kickset = config.kicks.data_fast(self.piece.mino, from, to);
            let ghost kicks = kickset@;
            let mut k: usize = 0;
            let mut found = false;
            let mut nx: u8 = 0;
            let mut ny: u8 = 0;
            while !found && k < kickset.len()
                invariant
                    k <= kickset.len(),
                    to < 4,
                    kicks == kickset@,
                    *self == *old(self),
                    !found ==> self.first_free_kick(kicks, to as int, k as int) == self.first_free_kick(kicks, to as int, 0),
                    found ==> k < kicks.len() && k as int == self.first_free_kick(kicks, to as int, 0)
                        && nx == kick_x(self.piece.x, kicks[k as int].0) && ny == kick_y(self.piece.y, kicks[k as int].1),
                decreases kickset.len() - k + (if found { 0int } else { 1int }),
            {
                let (dx, dy) = kickset[k];
                let sx = #[verifier::truncate] (self.piece.x as i8);
                let sy = #[verifier::truncate] (self.piece.y as i8);
                nx = #[verifier::truncate] (sx.wrapping_add(dx) as u8);
                ny = #[verifier::truncate] (sy.wrapping_sub(dy) as u8);
                if !self.collision_map.test(nx, ny, to) {
                    found = true;
                } else {
                    k += 1;
                }
            }
            if found {
                let (dx, dy) = kickset[k];
                let is_tst_or_fin = (((from == 2 && to == 3) || (from == 0 && to == 3)) && dx == 1 && dy == -2)
                    || (((from == 2 && to == 1) || (from == 0 && to == 1)) && dx == -1 && dy == -2);
                self.piece.x = nx;
                self.piece.y = ny;
                self.piece.rot = to;
                res = (true, true, is_tst_or_fin);
            }
        }
        if res.0 {
            self.update_spin(res.2, config);
        }
        (res.0, res.1)
    }

    /// The row the falling piece lands on when dropped.
    pub open spec fn landing(&self) -> int {
        rest_y(self.collision_map, self.piece.x, self.piece.y as int, self.piece.rot as int)
    }

    /// The cell offsets of the falling piece's rotation.
    pub open spec fn cells(&self) -> [(u8, u8); 4] {
        self.piece.shape.rotations[self.piece.rot as int]
    }

    /// Every cell of the dropped piece lies inside the field.
    pub open spec fn lands_inside(&self) -> bool {
        forall|k: int|
            0 <= k < 4 ==> (#[trigger] self.cells()[k]).0 <= self.piece.x < self.cells()[k].0 + 10
                && self.cells()[k].1 <= self.landing() < self.cells()[k].1 + 40
    }

    /// Whether (`x`, `y`) is a cell of the dropped piece.
    pub open spec fn piece_cell(&self, x: int, y: int) -> bool {
        exists|k: int|
            0 <= k < 4 && x == self.piece.x - (#[trigger] self.cells()[k]).0 && y == self.landing() - self.cells()[k].1
    }

    /// Column `x` with the dropped piece's cells added.
    pub open spec fn placed_bits(&self, x: int) -> Seq<bool> {
        Seq::new(64, |y: int| self.board.filled(x, y) || self.piece_cell(x, y))
    }

    /// The lowest row the dropped piece occupies.
    pub open spec fn low_row(&self) -> int {
        let c = self.cells();
        self.landing() - max4(c[0].1, c[1].1, c[2].1, c[3].1)
    }

    /// The highest row the dropped piece occupies.
    pub open spec fn high_row(&self) -> int {
        let c = self.cells();
        self.landing() - min4(c[0].1, c[1].1, c[2].1, c[3].1)
    }

    /// The rows that dropping the piece completes.
    pub open spec fn completed_rows(&self) -> spec_fn(int) -> bool {
        |r: int| self.low_row() <= r <= self.high_row() && 0 <= r < 64 && forall|x: int|
            0 <= x < 10 ==> #[trigger] self.placed_bits(x)[r]
    }

    /// How many rows dropping the piece clears.
    pub open spec fn lines_cleared(&self) -> nat {
        count_range(self.completed_rows(), self.low_row(), self.high_row() + 1)
    }

    /// Column `x` after the piece is dropped and the completed rows cleared.
    pub open spec fn cleared_bits(&self, x: int) -> Seq<bool> {
        pad_rows(keep_rows(self.placed_bits(x), self.completed_rows()))
    }

    /// Whether, after the drop and the clear, some column reaches row 39.
    pub open spec fn drop_tops_out(&self) -> bool {
        exists|x: int| 0 <= x < 10 && (#[trigger] self.cleared_bits(x))[39]
    }

    /// The back-to-back and combo counters can take the drop's update.
    pub open spec fn counters_fit(&self, config: &GameConfig) -> bool {
        let n = self.lines_cleared();
        let pc_bonus = self.drop_tops_out() && config.pc_b2b > 0;
        &&& n > 0 ==> self.combo < i16::MAX
        &&& n > 0 && pc_bonus ==> i16::MIN <= self.b2b + (config.pc_b2b as i16) <= i16::MAX
        &&& n > 0 && !pc_bonus && (self.spin != Spin::NoSpin || n >= 4) ==> self.b2b < i16::MAX
    }

    /// What locking the piece gives: `after` is the game afterwards and `r`
    /// the result (see `lock_piece`).
    pub open spec fn lock_post(&self, after: Game, r: LockResult, config: GameConfig) -> bool {
        &&& after.piece == (Falling { y: self.landing() as u8, ..self.piece })
        &&& forall|x: int| 0 <= x < 10 ==> col_bits(#[trigger] after.board.cols[x]) == self.cleared_bits(x)
        &&& r.cleared == self.lines_cleared()
        &&& after.board.garbage == self.board.garbage - count_range(
            |y: int| self.completed_rows()(y) && y < self.board.garbage,
            self.low_row(),
            self.high_row() + 1,
        )
        &&& r.garbage_cleared == exists|y: int| #[trigger] self.completed_rows()(y) && y < self.board.garbage
        &&& r.pc == self.drop_tops_out()
        &&& r.cleared > 0 ==> after.combo == self.combo + 1
        &&& r.cleared == 0 ==> after.combo == -1
        &&& r.cleared == 0 ==> after.b2b == self.b2b && r.broke_b2b is None
        &&& r.cleared > 0 && r.pc && config.pc_b2b > 0 ==> after.b2b == self.b2b + (config.pc_b2b as i16)
            && r.broke_b2b is None
        &&& r.cleared > 0 && !(r.pc && config.pc_b2b > 0) && (self.spin != Spin::NoSpin || r.cleared >= 4)
            ==> after.b2b == self.b2b + 1 && r.broke_b2b is None
        &&& r.cleared > 0 && !(r.pc && config.pc_b2b > 0) && !(self.spin != Spin::NoSpin || r.cleared >= 4)
            ==> after.b2b == -1 && r.broke_b2b == Some(self.b2b)
        &&& r.special_bonus == (config.garbage_special_bonus && r.garbage_cleared && (self.spin != Spin::NoSpin
            || r.cleared >= 4))
        &&& r.clear_type == if r.cleared >= 4 {
            Some(Spin::Normal)
        } else if r.cleared > 0 {
            Some(self.spin)
        } else {
            None
        }
        &&& after.spin == self.spin
        &&& after.collision_map == self.collision_map
        &&& after.queue == self.queue
        &&& after.queue_ptr == self.queue_ptr
        &&& after.hold == self.hold
        &&& after.garbage@ == self.garbage@
        &&& after.minos == self.minos
    }

    /// The board after dropping the piece, locking its cells and clearing the
    /// completed rows, with how many rows were cleared, whether one was a
    /// garbage row, and whether some column then reaches row 39. The game
    /// itself is not changed.
    pub fn dropped_board(&self) -> (r: (Board, u8, bool, bool))
        requires
            self.piece.rot < 4,
            self.lands_inside(),
        ensures
            forall|x: int| 0 <= x < 10 ==> col_bits(#[trigger] r.0.cols[x]) == self.cleared_bits(x),
            r.0.garbage == self.board.garbage - count_range(
                |y: int| self.completed_rows()(y) && y < self.board.garbage,
                self.low_row(),
                self.high_row() + 1,
            ),
            r.1 == self.lines_cleared(),
            r.2 == exists|y: int| #[trigger] self.completed_rows()(y) && y < self.board.garbage,
            r.3 == self.drop_tops_out(),
    {
        let ghost g0 = *self;
        proof {
            lemma_rest_y_bounds(self.collision_map, self.piece.x, self.piece.y as int, self.piece.rot as int);
        }
        let mut board = self.board;
        let blocks = *self.piece.blocks();
        let px = self.piece.x;
        let py = self.landing_row();
        let mut max_y = blocks[0].1;
        let mut min_y = blocks[0].1;
        let mut k: usize = 0;
        while k < 4
            invariant
                k <= 4,
                blocks == g0.cells(),
                px == g0.piece.x,
                py == g0.landing(),
                g0.lands_inside(),
                board.garbage == g0.board.garbage,
                max_y == max4(blocks[0].1, if k > 1 { blocks[1].1 } else { blocks[0].1 }, if k > 2 { blocks[2].1 } else { blocks[0].1 }, if k > 3 { blocks[3].1 } else { blocks[0].1 }),
                min_y == min4(blocks[0].1, if k > 1 { blocks[1].1 } else { blocks[0].1 }, if k > 2 { blocks[2].1 } else { blocks[0].1 }, if k > 3 { blocks[3].1 } else { blocks[0].1 }),
                forall|x: int, y: int| 0 <= x < 10 && 0 <= y < 64 ==> #[trigger] board.filled(x, y) == (g0.board.filled(x, y)
                    || exists|j: int| 0 <= j < k && x == px - (#[trigger] blocks[j]).0 && y == py - blocks[j].1),
                *self == g0,
            decreases 4 - k,
        {
            let (bx, by) = blocks[k];
            assert(g0.cells()[k as int].0 <= g0.piece.x < g0.cells()[k as int].0 + 10);
            board.set((px - bx) as usize, (py - by) as usize);
            if by > max_y {
                max_y = by;
            }
            if by < min_y {
                min_y = by;
            }
            proof {
                assert forall|x: int, y: int| 0 <= x < 10 && 0 <= y < 64 implies #[trigger] board.filled(x, y) == (g0.board.filled(x, y)
                    || exists|j: int| 0 <= j < k + 1 && x == px - (#[trigger] blocks[j]).0 && y == py - blocks[j].1) by {
                    if x == px - blocks[k as int].0 && y == py - blocks[k as int].1 {
                        assert(0 <= k < k + 1);
                    }
                }
            }
            k += 1;
        }
        let ghost mid = board;
        proof {
            assert forall|x: int| 0 <= x < 10 implies col_bits(#[trigger] mid.cols[x]) == g0.placed_bits(x) by {
                assert forall|y: int| 0 <= y < 64 implies col_bits(mid.cols[x])[y] == g0.placed_bits(x)[y] by {
                    assert(mid.filled(x, y) == (g0.board.filled(x, y) || g0.piece_cell(x, y)));
                }
                assert(col_bits(mid.cols[x]) =~= g0.placed_bits(x));
            }
            assert(max_y <= py && min_y <= py) by {
                assert(g0.cells()[0].1 <= g0.landing());
                assert(g0.cells()[1].1 <= g0.landing());
                assert(g0.cells()[2].1 <= g0.landing());
                assert(g0.cells()[3].1 <= g0.landing());
            }
            assert(g0.low_row() == py - max_y);
            assert(g0.high_row() == py - min_y);
            assert forall|r: int| #[trigger] mid.full_rows_between((py - max_y) as int, (py - min_y) as int)(r)
                == g0.completed_rows()(r) by {
                if g0.low_row() <= r <= g0.high_row() {
                    if 0 <= r < 64 {
                        if mid.row_full(r) {
                            assert forall|x: int| 0 <= x < 10 implies #[trigger] g0.placed_bits(x)[r] by {
                                assert(bit(mid.cols[x], r));
                                assert(col_bits(mid.cols[x])[r]);
                            }
                        }
                        if forall|x: int| 0 <= x < 10 ==> #[trigger] g0.placed_bits(x)[r] {
                            assert forall|x: int| 0 <= x < 10 implies #[trigger] bit(mid.cols[x], r) by {
                                assert(g0.placed_bits(x)[r]);
                                assert(col_bits(mid.cols[x])[r]);
                            }
                        }
                    } else {
                        assert(!bit(mid.cols[0], r));
                    }
                }
            }
            assert(mid.full_rows_between((py - max_y) as int, (py - min_y) as int) =~= g0.completed_rows());
        }
        let (cleared, garbage_cleared) = board.clear(py - max_y, py - min_y);
        let pc = board.is_pc();
        proof {
            assert forall|x: int| 0 <= x < 10 implies col_bits(#[trigger] board.cols[x]) == g0.cleared_bits(x) by {
                assert(col_bits(mid.cols[x]) == g0.placed_bits(x));
            }
            assert(pc == g0.drop_tops_out()) by {
                if pc {
                    let x = choose|x: int| 0 <= x < 10 && #[trigger] board.filled(x, 39);
                    assert(col_bits(board.cols[x])[39]);
                }
                if g0.drop_tops_out() {
                    let x = choose|x: int| 0 <= x < 10 && (#[trigger] g0.cleared_bits(x))[39];
                    assert(col_bits(board.cols[x])[39]);
                    assert(board.filled(x, 39));
                }
            }
        }
        (board, cleared, garbage_cleared, pc)
    }

    /// Drops the piece, locks its cells, clears the completed rows and
    /// updates combo and back-to-back: a clear raises the combo; a spin or
    /// four-row clear extends back-to-back by one, a clear that leaves some
    /// column at row 39 (paid as a perfect clear when the rules reward one)
    /// by `pc_b2b`, and any other clear breaks it (to -1).
    /// No clear resets the combo to -1. The piece stays where it landed.
    pub fn lock_piece(&mut self, config: &GameConfig) -> (r: LockResult)
        requires
            old(self).piece.rot < 4,
            old(self).lands_inside(),
            old(self).counters_fit(config),
        ensures
            old(self).lock_post(*final(self), r, *config),
    {
        let (board, cleared, garbage_cleared, pc) = self.dropped_board();
        let y = self.landing_row();
        self.piece.y = y;
        self.board = board;
        let mut broke_b2b: Option<i16> = Some(self.b2b);
        if cleared > 0 {
            self.combo = self.combo + 1;
            if (self.spin != Spin::NoSpin || cleared >= 4) && !(pc && config.pc_b2b > 0) {
                self.b2b = self.b2b + 1;
                broke_b2b = None;
            }
            if pc && config.pc_b2b > 0 {
                self.b2b = self.b2b + (#[verifier::truncate] (config.pc_b2b as i16));
                broke_b2b = None;
            }
            if broke_b2b.is_some() {
                self.b2b = -1;
            }
        } else {
            self.combo = -1;
            broke_b2b = None;
        }
        let special_bonus = config.garbage_special_bonus && garbage_cleared && (self.spin != Spin::NoSpin
            || cleared >= 4);
        let clear_type = if cleared >= 4 {
            Some(Spin::Normal)
        } else if cleared > 0 {
            Some(self.spin)
        } else {
            None
        };
        LockResult { cleared, garbage_cleared, pc, special_bonus, broke_b2b, clear_type }
    }

    /// The cells of the board as a predicate.
    pub open spec fn cells_now(&self) -> spec_fn(int, int) -> bool {
        |x: int, y: int| self.board.filled(x, y)
    }

    /// What settling after a lock does (see `finish_drop`): `after` is the
    /// game afterwards and `left` the attack left over.
    pub open spec fn drop_settles(&self, after: Game, cleared: u8, sent: u16, left: u16) -> bool {
        &&& cleared > 0 ==> ({
            let (q, rest) = cancel(self.garbage@, sent as int);
            &&& after.garbage@ == tick(q)
            &&& left == rest
            &&& after.board == self.board
        })
        &&& cleared == 0 ==> ({
            let d = due_count(self.garbage@) as int;
            &&& after.garbage@ == tick(self.garbage@.skip(d))
            &&& left == sent
            &&& forall|x: int, y: int|
                0 <= x < 10 && 0 <= y < 64 ==> #[trigger] after.board.filled(x, y) == with_garbage(
                    self.cells_now(),
                    self.garbage@.take(d),
                )(x, y)
            &&& after.board.garbage == garbage_height(self.board.garbage as int, self.garbage@.take(d))
        })
        &&& after.spin == Spin::NoSpin
        &&& after.queue_ptr == self.queue_ptr + 1
        &&& after.piece == (Falling {
            x: spawn_x(self.minos.data(self.queue[self.queue_ptr as int]).width),
            y: spawn_y(),
            rot: 0,
            mino: self.queue[self.queue_ptr as int],
            shape: self.minos.data(self.queue[self.queue_ptr as int]),
        })
        &&& after.queue == self.queue
        &&& after.hold == self.hold
        &&& after.b2b == self.b2b
        &&& after.combo == self.combo
        &&& after.collision_map == self.collision_map
        &&& after.minos == self.minos
    }

    /// Settles the incoming garbage after a piece locked and spawns the next
    /// piece. After a clear, the attack `sent` cancels queued garbage front to
    /// back; without one, the garbage that has arrived is pushed into the
    /// board. Every garbage timer then counts down and the spin resets.
    /// Returns the attack left over.
    pub fn finish_drop(&mut self, cleared: u8, sent: u16) -> (r: u16)
        requires
            old(self).queue_ptr < 32,
            cleared == 0 ==> forall|i: int|
                0 <= i < due_count(old(self).garbage@) ==> (#[trigger] old(self).garbage@[i]).col < 10
                    && old(self).garbage@[i].amt < 64,
        ensures
            old(self).drop_settles(*final(self), cleared, sent, r),
    {
        let ghost q0 = self.garbage@;
        let ghost g0 = *self;
        let ghost sent0 = sent;
        let mut sent = sent;
        if cleared > 0 {
            while sent > 0 && self.garbage.len() > 0
                invariant
                    cancel(self.garbage@, sent as int) == cancel(q0, sent0 as int),
                    self.frame_eq(g0),
                    self.board == g0.board,
                decreases self.garbage@.len() + sent,
            {
                let ghost q = self.garbage@;
                let g = self.garbage.pop_front().unwrap();
                let g16 = g.amt as u16;
                if g16 > sent {
                    self.garbage.push_front(Garbage { amt: g.amt - sent as u8, ..g });
                    assert(self.garbage@ =~= q.update(0, Garbage { amt: (q[0].amt - sent) as u8, ..q[0] }));
                    sent = 0;
                } else {
                    assert(q.drop_first() =~= self.garbage@);
                    sent = sent - g16;
                }
            }
        } else {
            let ghost mut j: int = 0;
            while self.garbage.len() > 0 && self.garbage[0].time == 0
                invariant
                    0 <= j <= q0.len(),
                    self.garbage@ == q0.skip(j),
                    forall|i: int| 0 <= i < j ==> (#[trigger] q0[i]).time == 0,
                    forall|i: int|
                        0 <= i < due_count(q0) ==> (#[trigger] q0[i]).col < 10 && q0[i].amt < 64,
                    forall|x: int, y: int|
                        0 <= x < 10 && 0 <= y < 64 ==> #[trigger] self.board.filled(x, y) == with_garbage(
                            g0.cells_now(),
                            q0.take(j),
                        )(x, y),
                    self.board.garbage == garbage_height(g0.board.garbage as int, q0.take(j)),
                    sent == sent0,
                    self.frame_eq(g0),
                decreases self.garbage@.len(),
            {
                proof {
                    lemma_due_count_ge(q0, j + 1);
                }
                let g = self.garbage.pop_front().unwrap();
                let ghost pre = self.board;
                self.board.insert_garbage(g.amt, g.col);
                proof {
                    let t = q0.take(j + 1);
                    assert(t.drop_last() =~= q0.take(j));
                    assert(t.last() == g);
                    assert(self.garbage@ =~= q0.skip(j + 1));
                    j = j + 1;
                }
            }
            proof {
                lemma_due_count(q0, j);
            }
        }
        let ghost qm = self.garbage@;
        let ghost bm = self.board;
        let n = self.garbage.len();
        let mut i: usize = 0;
        while i < n
            invariant
                i <= n,
                n == qm.len(),
                self.garbage@ == qm.skip(i as int) + tick(qm.take(i as int)),
                self.board == bm,
                self.frame_eq(g0),
            decreases n - i,
        {
            let ghost pre = self.garbage@;
            let mut g = self.garbage.pop_front().unwrap();
            if g.time > 0 {
                g.time = g.time - 1;
            }
            self.garbage.push_back(g);
            assert(self.garbage@ =~= qm.skip(i + 1) + tick(qm.take(i + 1)));
            i += 1;
        }
        assert(qm.skip(n as int) + tick(qm.take(n as int)) =~= tick(qm));
        self.spin = Spin::NoSpin;
        self.next_piece();
        sent
    }

    /// The row the falling piece would land on.
    pub fn landing_row(&self) -> (r: u8)
        requires
            self.piece.rot < 4,
        ensures
            r == self.landing(),
    {
        let x = self.piece.x;
        let mut y = self.piece.y;
        while y > 0 && !self.collision_map.test(x, y - 1, self.piece.rot)
            invariant
                self.piece.rot < 4,
                x == self.piece.x,
                y <= self.piece.y,
                rest_y(self.collision_map, x, y as int, self.piece.rot as int) == self.landing(),
            decreases y,
        {
            y = y - 1;
        }
        y
    }

    /// Whether every cell of the dropped piece would lie inside the field.
    pub fn drop_fits(&self) -> (r: bool)
        requires
            self.piece.rot < 4,
        ensures
            r == self.lands_inside(),
    {
        let x = self.piece.x;
        let y = self.landing_row();
        let cells = self.piece.blocks();
        let mut ok = true;
        let mut k: usize = 0;
        while k < 4
            invariant
                k <= 4,
                x == self.piece.x,
                y == self.landing(),
                *cells == self.cells(),
                ok == forall|j: int|
                    0 <= j < k ==> (#[trigger] self.cells()[j]).0 <= self.piece.x < self.cells()[j].0 + 10
                        && self.cells()[j].1 <= self.landing() < self.cells()[j].1 + 40,
            decreases 4 - k,
        {
            let (dx, dy) = cells[k];
            if !(dx <= x && (x as u16) < dx as u16 + 10 && dy <= y && (y as u16) < dy as u16 + 40) {
                ok = false;
            }
            k += 1;
        }
        ok
    }

    /// Whether the piece can be locked under `config`: its dropped cells lie
    /// inside the field and the combo and back-to-back counters can take the
    /// update that this lock makes.
    pub fn lock_fits(&self, config: &GameConfig) -> (r: bool)
        requires
            self.piece.rot < 4,
        ensures
            r == (self.lands_inside() && self.counters_fit(config)),
    {
        if !self.drop_fits() {
            return false;
        }
        let (_, n, _, pc) = self.dropped_board();
        if n == 0 {
            return true;
        }
        if self.combo == i16::MAX {
            return false;
        }
        if pc && config.pc_b2b > 0 {
            let pcb = #[verifier::truncate] (config.pc_b2b as i16);
            let total = self.b2b as i32 + pcb as i32;
            i16::MIN as i32 <= total && total <= i16::MAX as i32
        } else if self.spin != Spin::NoSpin || n >= 4 {
            self.b2b < i16::MAX
        } else {
            true
        }
    }

    /// Whether the falling piece collides where it stands.
    pub fn topped_out(&self) -> (r: bool)
        requires
            self.piece.rot < 4,
        ensures
            r == self.hits(self.piece.x as int, self.piece.y as int),
    {
        self.collision_map.test(self.piece.x, self.piece.y, self.piece.rot)
    }

    /// Rebuilds the collision map from the board and the falling piece.
    pub fn regen_collision_map(&mut self)
        requires
            old(self).piece.shape.wf(),
        ensures
            final(self).map_fresh(),
            final(self).board == old(self).board,
            final(self).piece == old(self).piece,
            final(self).queue == old(self).queue,
            final(self).queue_ptr == old(self).queue_ptr,
            final(self).hold == old(self).hold,
            final(self).b2b == old(self).b2b,
            final(self).combo == old(self).combo,
            final(self).spin == old(self).spin,
            final(self).garbage@ == old(self).garbage@,
            final(self).minos == old(self).minos,
    {
        self.collision_map = self.board.collision_map(&self.piece);
    }
}

} // verus!
