use vstd::prelude::*;
use crate::bits::{bit, lemma_bit_basics};
use crate::board::{Board, BOARD_HEIGHT, BOARD_WIDTH};

verus! {

/// The seven tetrominoes.
#[derive(Clone, Copy, Debug, PartialEq, Eq, Structural)]
pub enum Mino {
    Z,
    L,
    O,
    S,
    I,
    J,
    T,
}

/// The kind of spin a placement counts as.
#[derive(Clone, Copy, Debug, PartialEq, Eq, Structural)]
pub enum Spin {
    NoSpin,
    Mini,
    Normal,
}

/// Which placements a ruleset rewards as spins.
#[derive(Clone, Copy, Debug, PartialEq, Eq, Structural)]
pub enum SpinBonuses {
    NoSpins,
    Stupid,
    TSpins,
    TSpinsPlus,
    All,
    AllMini,
    AllPlus,
    AllMiniPlus,
    MiniOnly,
    Handheld,
}

/// The position of a mino in the piece tables.
pub open spec fn mino_index(m: Mino) -> int {
    match m {
        Mino::Z => 0,
        Mino::L => 1,
        Mino::O => 2,
        Mino::S => 3,
        Mino::I => 4,
        Mino::J => 5,
        Mino::T => 6,
    }
}

pub fn mino_slot(m: Mino) -> (r: usize)
    ensures
        r == mino_index(m),
        r < 7,
{
    match m {
        Mino::Z => 0,
        Mino::L => 1,
        Mino::O => 2,
        Mino::S => 3,
        Mino::I => 4,
        Mino::J => 5,
        Mino::T => 6,
    }
}

/// A corner that spin detection looks at: its offset from the piece and,
/// for a front corner, the two rotations in which it faces forward.
pub type Corner = ((i8, i8), Option<(u8, u8)>);

/// What the engine reads about one kind of piece: its spawn width, the
/// four cells of each rotation as offsets (`dx`, `dy`) below and left of the
/// piece's reference point (a cell sits at `x - dx`, `y - dy`), and the
/// spin-detection corners of each rotation where the piece has them.
#[derive(Clone, Copy)]
pub struct MinoData {
    pub width: u8,
    pub rotations: [[(u8, u8); 4]; 4],
    pub corners: Option<[[Corner; 4]; 4]>,
}

impl MinoData {
    /// Every cell offset is below 64 rows.
    pub open spec fn wf(&self) -> bool {
        forall|r: int, k: int| 0 <= r < 4 && 0 <= k < 4 ==> #[trigger] self.rotations[r][k].1 < 64
    }
}

/// The piece data of all seven minos, in `mino_index` order.
#[derive(Clone, Copy)]
pub struct MinoTable {
    pub minos: [MinoData; 7],
}

impl MinoTable {
    pub open spec fn wf(&self) -> bool {
        forall|i: int| 0 <= i < 7 ==> #[trigger] self.minos[i].wf()
    }

    pub open spec fn data(&self, m: Mino) -> MinoData {
        self.minos[mino_index(m)]
    }

    pub fn get(&self, m: Mino) -> (r: MinoData)
        ensures
            r == self.data(m),
    {
        self.minos[mino_slot(m)]
    }
}

/// The kick tests of a rotation system: for each mino, start rotation and
/// target rotation, the offsets (`dx`, `dy`) tried in order; a kick moves the
/// piece to (`x + dx`, `y - dy`).
#[derive(Clone)]
pub struct KickTable {
    pub kicks: Vec<Vec<(i8, i8)>>,
}

impl KickTable {
    pub open spec fn wf(&self) -> bool {
        self.kicks.len() == 112
    }

    pub open spec fn tests(&self, m: Mino, from: int, to: int) -> Seq<(i8, i8)> {
        self.kicks[mino_index(m) * 16 + from * 4 + to]@
    }

    pub fn data_fast(&self, m: Mino, from: u8, to: u8) -> (r: &Vec<(i8, i8)>)
        requires
            self.wf(),
            from < 4,
            to < 4,
        ensures
            r@ == self.tests(m, from as int, to as int),
    {
        &self.kicks[mino_slot(m) * 16 + (from as usize) * 4 + (to as usize)]
    }
}

/// The falling piece: its reference point, rotation, kind and cells.
#[derive(Clone, Copy)]
pub struct Falling {
    pub x: u8,
    pub y: u8,
    pub rot: u8,
    pub mino: Mino,
    pub shape: MinoData,
}

impl Falling {
    /// The cell offsets of the current rotation.
    pub fn blocks(&self) -> (r: &[(u8, u8); 4])
        requires
            self.rot < 4,
        ensures
            *r == self.shape.rotations[self.rot as int],
    {
        &self.shape.rotations[self.rot as usize]
    }
}

/// Whether the cell with offset `b` of a piece at (`x`, `y`) lies below the
/// floor, beside the field or on a filled cell.
pub open spec fn blocked(cols: [u64; 10], b: (u8, u8), x: int, y: int) -> bool {
    y < b.1 || x < b.0 || x - b.0 >= 10 || bit(cols[x - b.0], y - b.1)
}

/// Whether a piece with cell offsets `cells` at (`x`, `y`) overlaps the floor,
/// a wall or a filled cell.
pub open spec fn cells_blocked(cols: [u64; 10], cells: [(u8, u8); 4], x: int, y: int) -> bool {
    exists|k: int| 0 <= k < 4 && #[trigger] blocked(cols, cells[k], x, y)
}

/// For each rotation and each reference column 0..12, the rows at which a
/// piece would collide, one bit per row.
#[derive(Clone, Copy, Debug)]
pub struct CollisionMap {
    pub states: [[u64; 12]; 4],
}

impl CollisionMap {
    /// Whether `test(x, y, rot)` reports a collision.
    pub open spec fn hits(&self, x: int, y: int, rot: int) -> bool {
        x >= 12 || y >= 40 || bit(self.states[rot][x], y)
    }

    /// Whether this map is the one that `board` gives for a piece with the
    /// cells of `shape`.
    pub open spec fn describes(&self, cols: [u64; 10], shape: MinoData) -> bool {
        forall|rot: int, x: int, y: int|
            0 <= rot < 4 && 0 <= x < 12 && 0 <= y < 64 ==> #[trigger] bit(self.states[rot][x], y)
                == cells_blocked(cols, shape.rotations[rot], x, y)
    }

    /// The collision map of `board` for a piece with the cells of `piece`.
    pub fn new(board: &[u64; 10], piece: &Falling) -> (r: CollisionMap)
        requires
            piece.shape.wf(),
        ensures
            r.describes(*board, piece.shape),
    {
        let ghost b = *board;
        let mut states = [[0u64; 12]; 4];
        let mut rot: usize = 0;
        while rot < 4
            invariant
                rot <= 4,
                piece.shape.wf(),
                b == *board,
                forall|r: int, x: int, y: int|
                    0 <= r < rot && 0 <= x < 12 && 0 <= y < 64 ==> #[trigger] bit(states[r][x], y)
                        == cells_blocked(b, piece.shape.rotations[r], x, y),
                forall|r: int, x: int| rot <= r < 4 && 0 <= x < 12 ==> #[trigger] states[r][x] == 0,
            decreases 4 - rot,
        {
            let cells = piece.shape.rotations[rot];
            proof {
                assert forall|x: int, y: int| 0 <= x < 12 && 0 <= y < 64 implies !#[trigger] bit(states[rot as int][x], y) by {
                    lemma_bit_basics(0, y as u64);
                }
            }
            let mut k: usize = 0;
            while k < 4
                invariant
                    rot < 4,
                    k <= 4,
                    piece.shape.wf(),
                    cells == piece.shape.rotations[rot as int],
                    b == *board,
                    forall|r: int, x: int, y: int|
                        0 <= r < rot && 0 <= x < 12 && 0 <= y < 64 ==> #[trigger] bit(states[r][x], y)
                            == cells_blocked(b, piece.shape.rotations[r], x, y),
                    forall|r: int, x: int| rot < r < 4 && 0 <= x < 12 ==> #[trigger] states[r][x] == 0,
                    forall|x: int, y: int|
                        0 <= x < 12 && 0 <= y < 64 ==> #[trigger] bit(states[rot as int][x], y)
                            == exists|j: int| 0 <= j < k && #[trigger] blocked(b, cells[j], x, y),
                decreases 4 - k,
            {
                let (dx, dy) = cells[k];
                let dx = dx as usize;
                assert(dy < 64);
                let mut x: usize = 0;
                while x < BOARD_WIDTH + 2
                    invariant
                        rot < 4,
                        k < 4,
                        x <= 12,
                        dy < 64,
                        cells == piece.shape.rotations[rot as int],
                        (dx as int, dy) == (cells[k as int].0 as int, cells[k as int].1),
                        b == *board,
                        forall|r: int, xx: int, y: int|
                            0 <= r < rot && 0 <= xx < 12 && 0 <= y < 64 ==> #[trigger] bit(states[r][xx], y)
                                == cells_blocked(b, piece.shape.rotations[r], xx, y),
                        forall|r: int, xx: int| rot < r < 4 && 0 <= xx < 12 ==> #[trigger] states[r][xx] == 0,
                        forall|xx: int, y: int|
                            0 <= xx < x && 0 <= y < 64 ==> #[trigger] bit(states[rot as int][xx], y)
                                == exists|j: int| 0 <= j < k + 1 && #[trigger] blocked(b, cells[j], xx, y),
                        forall|xx: int, y: int|
                            x <= xx < 12 && 0 <= y < 64 ==> #[trigger] bit(states[rot as int][xx], y)
                                == exists|j: int| 0 <= j < k && #[trigger] blocked(b, cells[j], xx, y),
                    decreases 12 - x,
                {
                    let col = if x >= dx && x - dx < BOARD_WIDTH { board[x - dx] } else { !0u64 };
                    let old_word = states[rot][x];
                    let word = old_word | !(!col << (dy as u64));
                    states[rot][x] = word;
                    proof {
                        assert forall|y: int| 0 <= y < 64 implies #[trigger] bit(word, y) == (bit(old_word, y)
                            || blocked(b, cells[k as int], x as int, y)) by {
                            lemma_hide_bits(old_word, col, dy as u64, y as u64);
                            if y >= dy {
                                lemma_bit_basics(col, (y - dy) as u64);
                            }
                        }
                        assert forall|y: int| 0 <= y < 64 implies #[trigger] bit(states[rot as int][x as int], y)
                            == exists|j: int| 0 <= j < k + 1 && #[trigger] blocked(b, cells[j], x as int, y) by {
                            if blocked(b, cells[k as int], x as int, y) {
                                assert(0 <= k < k + 1);
                            }
                        }
                    }
                    x += 1;
                }
                k += 1;
            }
            proof {
                assert forall|x: int, y: int| 0 <= x < 12 && 0 <= y < 64 implies #[trigger] bit(states[rot as int][x], y)
                    == cells_blocked(b, piece.shape.rotations[rot as int], x, y) by {
                    if cells_blocked(b, cells, x, y) {
                        let j = choose|j: int| 0 <= j < 4 && #[trigger] blocked(b, cells[j], x, y);
                        assert(0 <= j < k);
                    }
                }
            }
            rot += 1;
        }
        CollisionMap { states }
    }

    /// Whether a piece in rotation `rot` at (`x`, `y`) collides; positions
    /// right of column 11 or at row 40 and above always do.
    pub fn test(&self, x: u8, y: u8, rot: u8) -> (r: bool)
        requires
            rot < 4,
        ensures
            r == self.hits(x as int, y as int, rot as int),
    {
        let x = x as usize;
        let y = y as usize;
        if x >= BOARD_WIDTH + 2 || y >= BOARD_HEIGHT {
            return true;
        }
        proof {
            lemma_bit_basics(self.states[rot as int][x as int], y as u64);
        }
        (self.states[rot as usize][x] >> (y as u64)) & 1 != 0
    }
}

/// A word `w` gains the rows where a cell `dy` rows down reads `col` as
/// filled, and every row below `dy`.
proof fn lemma_hide_bits(w: u64, col: u64, dy: u64, y: u64)
    requires
        dy < 64,
        y < 64,
    ensures
        ((w | !(!col << dy)) >> y) & 1u64 == 1u64 <==> ((w >> y) & 1u64 == 1u64 || y < dy
            || (col >> ((y - dy) as u64)) & 1u64 == 1u64),
{
    if y >= dy {
        let d = (y - dy) as u64;
        assert(((w | !(!col << dy)) >> y) & 1u64 == 1u64 <==> ((w >> y) & 1u64 == 1u64 || (col >> d) & 1u64 == 1u64))
            by (bit_vector)
            requires
                dy < 64,
                y < 64,
                d == y - dy,
        ;
    } else {
        assert(((w | !(!col << dy)) >> y) & 1u64 == 1u64) by (bit_vector)
            requires
                dy < 64,
                y < dy,
        ;
    }
}

impl Board {
    /// The collision map of this board for the cells of `piece`.
    pub fn collision_map(&self, piece: &Falling) -> (r: CollisionMap)
        requires
            piece.shape.wf(),
        ensures
            r.describes(self.cols, piece.shape),
    {
        CollisionMap::new(&self.cols, piece)
    }
}

} // verus!
