use vstd::prelude::*;
use std::collections::VecDeque;
use crate::game::{Game, GameConfig, Garbage, LockResult, due_count};
use crate::keyfinder::{
    get_keys, keys_reach, search_keys, search_start, lemma_after_move_pose, lemma_after_move_same, lemma_run_path_prefix, occupies, run_path,
    after_move, same_but_garbage, Move,
};
use crate::piece::{Mino, MinoTable, Spin};
use crate::queue::{Bag, Queue, refill};
use crate::rng::{RNG, seed_from};

verus! {

/// The engine as a player sees it: the piece queue, the game and the rules
/// of the current match.
pub struct Falcon {
    pub queue: Queue,
    pub game: Game,
    pub config: Option<GameConfig>,
}

/// How a chosen placement was played: the keys pressed, and whether the
/// hold took a fresh piece from the queue (so that the queue moves on by
/// two pieces).
pub struct Placement {
    pub keys: Vec<Move>,
    pub double_shift: bool,
}

/// `q` and `g` are what a match from `seed` with `bag` starts with: the
/// queue topped up from an empty one and shifted once, and a new game whose
/// falling piece is the piece shifted off and whose upcoming pieces are the
/// queue's first 32.
pub open spec fn starts_from(bag: Bag, seed: u64, minos: MinoTable, q: Queue, g: Game) -> bool {
    let (q0, rng0) = refill(Seq::<Mino>::empty(), RNG { seed: seed_from(seed), index: 0 }, 32);
    &&& g.piece.mino == q0[0]
    &&& (q.queue@, q.rng) == refill(q0.drop_first(), rng0, 32)
    &&& forall|i: int| 0 <= i < 32 ==> #[trigger] g.queue[i] == q.queue@[i]
    &&& g.queue_ptr == 0
    &&& g.hold is None
    &&& g.b2b == -1
    &&& g.combo == -1
    &&& g.spin == Spin::NoSpin
    &&& g.piece.rot == 0
    &&& g.piece.x == crate::game::spawn_x(minos.data(g.piece.mino).width)
    &&& g.piece.y == crate::game::spawn_y()
    &&& g.map_fresh()
    &&& g.minos == minos
    &&& g.piece.shape == minos.data(g.piece.mino)
    &&& forall|x: int| 0 <= x < 10 ==> g.board.cols[x] == 0
    &&& g.board.garbage == 0
    &&& g.garbage@.len() == 0
    &&& q.min_size == 32
    &&& q.bag == bag
    &&& q.can_refill()
}

/// A fresh queue from `seed` and the game that starts from it.
fn fresh(bag: Bag, seed: u64, minos: MinoTable) -> (r: (Queue, Game))
    requires
        minos.wf(),
    ensures
        starts_from(bag, seed, minos, r.0, r.1),
{
    let initial: Vec<crate::piece::Mino> = Vec::new();
    assert(initial@ =~= Seq::empty());
    let mut queue = Queue::new(bag, seed, 32, initial);
    let first = queue.shift();
    let upcoming = queue.get_front_32();
    let game = Game::new(first, upcoming, minos);
    (queue, game)
}

impl Falcon {
    /// The state between two steps: a well-formed piece table, the falling
    /// piece fresh from the queue's front with its own cells, no spin, an
    /// up-to-date collision map and a kick table of the expected size.
    pub open spec fn ready(&self) -> bool {
        &&& self.game.minos.wf()
        &&& self.game.piece.shape == self.game.minos.data(self.game.piece.mino)
        &&& self.game.piece.rot < 4
        &&& self.game.piece.x < 255
        &&& self.game.queue_ptr == 0
        &&& self.game.spin == Spin::NoSpin
        &&& self.game.map_fresh()
        &&& self.config matches Some(c) ==> c.kicks.wf()
    }

    /// The engine before any match: a 7-bag queue seeded with 0, no rules.
    pub fn new(minos: MinoTable) -> (f: Falcon)
        requires
            minos.wf(),
        ensures
            f.config is None,
            starts_from(Bag::Bag7, 0, minos, f.queue, f.game),
            f.ready(),
    {
        let (queue, game) = fresh(Bag::Bag7, 0, minos);
        Falcon { queue, game, config: None }
    }

    /// Starts a match with `config`, a queue from `seed` and a fresh game.
    pub fn start(&mut self, config: GameConfig, seed: u64, bag: Bag)
        requires
            old(self).game.minos.wf(),
            config.kicks.wf(),
        ensures
            final(self).config == Some(config),
            starts_from(bag, seed, old(self).game.minos, final(self).queue, final(self).game),
            final(self).ready(),
    {
        let (queue, game) = fresh(bag, seed, self.game.minos);
        self.queue = queue;
        self.config = Some(config);
        self.game = game;
    }

    /// Plays the placement that the search chose (column, row, rotation,
    /// whether to hold first, spin), up to the hard drop: holds if asked
    /// (rebuilding the collision map), empties the incoming garbage, finds
    /// the keys to the target and presses them; the keys returned start with
    /// `Hold` when the piece was held. With no choice, the keys are a lone
    /// hard drop and nothing changes. None without rules, or when no keys to
    /// the target were found.
    pub fn place(&mut self, choice: Option<(u8, u8, u8, bool, Spin)>) -> (r: Option<Placement>)
        requires
            old(self).ready(),
        ensures
            old(self).config is None ==> r is None,
            r is Some ==> old(self).config is Some,
            final(self).config == old(self).config,
            final(self).queue == old(self).queue,
            final(self).game.board == old(self).game.board,
            final(self).game.b2b == old(self).game.b2b,
            final(self).game.combo == old(self).game.combo,
            final(self).game.queue == old(self).game.queue,
            final(self).game.minos == old(self).game.minos,
            choice is None && old(self).config is Some ==> (r matches Some(p) && p.keys@ == seq![Move::HardDrop]
                && !p.double_shift),
            choice is None ==> final(self).game.piece == old(self).game.piece && final(self).game.garbage@
                == old(self).game.garbage@ && final(self).game.spin == old(self).game.spin && final(self).game.hold
                == old(self).game.hold && final(self).game.queue_ptr == 0 && final(self).game.collision_map
                == old(self).game.collision_map,
            choice is Some && r is Some ==> {
                let c = choice->0;
                let p = r->0;
                let g = final(self).game;
                &&& p.double_shift == (c.3 && old(self).game.hold is None)
                &&& p.keys@.len() >= 1
                &&& p.keys@.last() == Move::HardDrop
                &&& c.3 ==> p.keys@[0] == Move::Hold && g.hold == Some(old(self).game.piece.mino) && g.piece.mino == (
                match old(self).game.hold {
                    Some(h) => h,
                    None => old(self).game.queue[0],
                }) && g.queue_ptr == (if old(self).game.hold is None { 1usize } else { 0usize })
                &&& !c.3 ==> g.hold == old(self).game.hold && g.piece.mino == old(self).game.piece.mino
                    && g.queue_ptr == 0
                &&& g.piece.shape == g.minos.data(g.piece.mino)
                &&& g.spin == c.4
                &&& c.2 < 4
                &&& g.piece.rot % 2 == c.2 % 2
                &&& forall|cell: (u8, u8)|
                    #[trigger] occupies(g.piece.x, g.piece.y, g.cells(), cell) == occupies(
                        c.0,
                        c.1,
                        g.piece.shape.rotations[c.2 as int],
                        cell,
                    )
                &&& g.piece.rot < 4
                &&& g.garbage@.len() == 0
                &&& g.map_fresh()
            },
            choice is Some && old(self).config is Some ==> ({
                let c = choice->0;
                let h = if c.3 { old(self).game.after_hold() } else { old(self).game };
                let found = search_keys(
                    Game { collision_map: final(self).game.collision_map, ..h },
                    old(self).config->0,
                    (c.0, c.1, c.2, c.4),
                );
                &&& final(self).game.collision_map.describes(h.board.cols, h.piece.shape)
                &&& (r is Some <==> found is Some)
                &&& r is Some ==> r->0.keys@ == (if c.3 { seq![Move::Hold] + found->0 } else { found->0 })
            }),
    {
        let config = match &self.config {
            Some(c) => c,
            None => {
                return None;
            },
        };
        let (x, y, rot, hold, spin) = match choice {
            Some(c) => c,
            None => {
                return Some(Placement { keys: vec![Move::HardDrop], double_shift: false });
            },
        };
        let ghost g_start = self.game;
        let mut double_shift = false;
        if hold {
            double_shift = self.game.hold.is_none();
            self.game.hold();
            self.game.regen_collision_map();
        }
        self.game.garbage = VecDeque::new();
        let snapshot = Game {
            board: self.game.board,
            queue: self.game.queue,
            queue_ptr: self.game.queue_ptr,
            b2b: self.game.b2b,
            combo: self.game.combo,
            hold: self.game.hold,
            piece: self.game.piece,
            garbage: VecDeque::new(),
            collision_map: self.game.collision_map,
            spin: self.game.spin,
            minos: self.game.minos,
        };
        let ghost gs = snapshot;
        let ghost g_held = self.game;
        let ghost h = if hold { g_start.after_hold() } else { g_start };
        let ghost found = search_keys(
            Game { collision_map: g_held.collision_map, ..h },
            *config,
            (x, y, rot, spin),
        );
        proof {
            assert(same_but_garbage(self.game, gs));
            assert((Game { spin: Spin::NoSpin, ..gs }) == gs);
            assert(search_start(gs) == search_start(Game { collision_map: g_held.collision_map, ..h }));
            assert(search_keys(gs, *config, (x, y, rot, spin)) == found);
        }
        let mut keys = match get_keys(snapshot, config, (x, y, rot, spin)) {
            Some(k) => k,
            None => {
                return None;
            },
        };
        let ghost path = keys@;
        let n = keys.len();
        let mut i: usize = 0;
        while i < n
            invariant
                i <= n,
                n == keys.len(),
                keys@ == path,
                keys_reach(gs, *config, (x, y, rot, spin), path),
                gs.spin == Spin::NoSpin,
                config.kicks.wf(),
                self.game.piece.rot < 4,
                self.game.piece.x < 255,
                same_but_garbage(self.game, run_path(gs, path.take(i as int), *config).0),
                self.game == crate::keyfinder::with_pose(g_held, self.game.piece.x, self.game.piece.y, self.game.piece.rot, self.game.spin),
                self.config == old(self).config,
                self.queue == old(self).queue,
                self.config matches Some(c) && c == *config,
            decreases n - i,
        {
            let key = keys[i];
            let ghost before = self.game;
            let ghost gi = run_path(gs, path.take(i as int), *config).0;
            proof {
                if i + 1 < n {
                    lemma_run_path_prefix(gs, path.drop_last(), i as int, *config);
                    assert(path.drop_last()[i as int] == path[i as int]);
                }
                lemma_after_move_pose(before, key, *config);
                lemma_after_move_same(before, gi, key, *config);
                assert(path.take(i + 1).drop_last() =~= path.take(i as int));
                assert(path.take(i + 1).last() == key);
            }
            key.run(&mut self.game, config);
            i += 1;
        }
        proof {
            assert(path.take(n as int) =~= path);
            let g1 = run_path(gs, path.drop_last(), *config).0;
            let g2 = after_move(g1, Move::HardDrop, *config).0;
            assert(run_path(gs, path, *config).0 == g2);
            assert(self.game.piece == g2.piece);
            assert forall|cell: (u8, u8)|
                #[trigger] occupies(self.game.piece.x, self.game.piece.y, self.game.cells(), cell) == occupies(
                    x,
                    y,
                    self.game.piece.shape.rotations[rot as int],
                    cell,
                ) by {
                assert(occupies(g2.piece.x, g2.piece.y, g2.cells(), cell) == occupies(
                    x,
                    y,
                    gs.piece.shape.rotations[rot as int],
                    cell,
                ));
            }
        }
        if hold {
            keys.insert(0, Move::Hold);
            assert(keys@ =~= seq![Move::Hold] + path);
        }
        Some(Placement { keys, double_shift })
    }

    /// Hard-drops and locks the placed piece under the match's rules (see
    /// `Game::lock_piece`). None, with nothing changed, without rules, when
    /// the dropped piece would leave the field, or when this lock would
    /// overflow the combo or back-to-back counter.
    pub fn lock(&mut self) -> (r: Option<LockResult>)
        requires
            old(self).game.piece.rot < 4,
        ensures
            r is Some <==> (old(self).config matches Some(c) && old(self).game.lands_inside()
                && old(self).game.counters_fit(&c)),
            r is Some ==> old(self).game.lock_post(final(self).game, r->0, old(self).config->0),
            r is None ==> final(self).game.board == old(self).game.board && final(self).game.piece == old(self).game.piece
                && final(self).game.b2b == old(self).game.b2b && final(self).game.combo == old(self).game.combo
                && final(self).game.garbage@ == old(self).game.garbage@,
            final(self).config == old(self).config,
            final(self).queue == old(self).queue,
    {
        let config = match &self.config {
            Some(c) => c,
            None => {
                return None;
            },
        };
        if !self.game.lock_fits(config) {
            return None;
        }
        Some(self.game.lock_piece(config))
    }

    /// Finishes a step once the attack `sent` is known: settles the garbage
    /// and spawns the next piece (see `Game::finish_drop`), moves the queue
    /// on by one piece (two when the hold took a fresh one), shows the game
    /// the queue's first 32 pieces again and rebuilds the collision map.
    /// Returns the attack left over.
    pub fn finish(&mut self, cleared: u8, sent: u16, double_shift: bool) -> (r: u16)
        requires
            old(self).game.queue_ptr < 32,
            old(self).game.minos.wf(),
            cleared == 0 ==> forall|i: int|
                0 <= i < due_count(old(self).game.garbage@) ==> (#[trigger] old(self).game.garbage@[i]).col < 10
                    && old(self).game.garbage@[i].amt < 64,
            old(self).queue.queue@.len() > 0,
            old(self).queue.min_size > 0,
            old(self).queue.queue@.len() - 1 < old(self).queue.min_size ==> old(self).queue.can_refill(),
            double_shift && old(self).queue.queue@.len() - 2 < old(self).queue.min_size ==> old(self).queue.can_refill(),
            double_shift && old(self).queue.queue@.len() - 1 < old(self).queue.min_size ==> old(self).queue.rng.index + 2
                * old(self).queue.min_size + 13 <= usize::MAX,
            old(self).config matches Some(c) ==> c.kicks.wf(),
        ensures
            old(self).game.drop_settles(
                Game {
                    queue: old(self).game.queue,
                    queue_ptr: (old(self).game.queue_ptr + 1) as usize,
                    collision_map: old(self).game.collision_map,
                    ..final(self).game
                },
                cleared,
                sent,
                r,
            ),
            ({
                let (q1, rng1) = refill(old(self).queue.queue@.drop_first(), old(self).queue.rng, old(self).queue.min_size as int);
                &&& !double_shift ==> (final(self).queue.queue@, final(self).queue.rng) == (q1, rng1)
                &&& double_shift ==> (final(self).queue.queue@, final(self).queue.rng) == refill(q1.drop_first(), rng1, old(self).queue.min_size as int)
            }),
            final(self).queue.bag == old(self).queue.bag,
            final(self).queue.min_size == old(self).queue.min_size,
            forall|i: int| 0 <= i < 32 ==> #[trigger] final(self).game.queue[i] == if i < final(self).queue.queue@.len() {
                final(self).queue.queue@[i]
            } else {
                Mino::I
            },
            final(self).config == old(self).config,
            final(self).ready(),
    {
        let left = self.game.finish_drop(cleared, sent);
        if double_shift {
            self.queue.shift();
        }
        self.queue.shift();
        self.game.queue = self.queue.get_front_32();
        self.game.queue_ptr = 0;
        self.game.regen_collision_map();
        left
    }

    /// Pushes each of `garbage` into the board in order and rebuilds the
    /// collision map.
    pub fn insert_garbage(&mut self, garbage: Vec<Garbage>)
        requires
            forall|i: int| 0 <= i < garbage.len() ==> (#[trigger] garbage@[i]).col < 10 && garbage@[i].amt < 64,
            old(self).game.piece.shape.wf(),
        ensures
            forall|x: int, y: int|
                0 <= x < 10 && 0 <= y < 64 ==> #[trigger] final(self).game.board.filled(x, y)
                    == crate::game::with_garbage(old(self).game.cells_now(), garbage@)(x, y),
            final(self).game.board.garbage == crate::game::garbage_height(old(self).game.board.garbage as int, garbage@),
            final(self).game.map_fresh(),
            final(self).game.piece == old(self).game.piece,
            final(self).game.queue == old(self).game.queue,
            final(self).game.queue_ptr == old(self).game.queue_ptr,
            final(self).game.hold == old(self).game.hold,
            final(self).game.b2b == old(self).game.b2b,
            final(self).game.combo == old(self).game.combo,
            final(self).game.spin == old(self).game.spin,
            final(self).game.minos == old(self).game.minos,
            final(self).game.garbage@ == old(self).game.garbage@,
            final(self).config == old(self).config,
            final(self).queue == old(self).queue,
    {
        let ghost g0 = self.game;
        let mut i: usize = 0;
        while i < garbage.len()
            invariant
                i <= garbage.len(),
                forall|j: int| 0 <= j < garbage.len() ==> (#[trigger] garbage@[j]).col < 10 && garbage@[j].amt < 64,
                forall|x: int, y: int|
                    0 <= x < 10 && 0 <= y < 64 ==> #[trigger] self.game.board.filled(x, y)
                        == crate::game::with_garbage(g0.cells_now(), garbage@.take(i as int))(x, y),
                self.game.board.garbage == crate::game::garbage_height(g0.board.garbage as int, garbage@.take(i as int)),
                self.game == (Game { board: self.game.board, ..g0 }),
                self.config == old(self).config,
                self.queue == old(self).queue,
            decreases garbage.len() - i,
        {
            let g = garbage[i];
            self.game.board.insert_garbage(g.amt, g.col);
            proof {
                let t = garbage@.take(i + 1);
                assert(t.drop_last() =~= garbage@.take(i as int));
                assert(t.last() == g);
            }
            i += 1;
        }
        assert(garbage@.take(garbage.len() as int) =~= garbage@);
        self.game.regen_collision_map();
    }
}

} // verus!
