use std::collections::VecDeque;

use falcon::board::Board;
use falcon::falcon::Falcon;
use falcon::queue::Bag;
use falcon::game::{Game, GameConfig, Garbage};
use falcon::keyfinder::{compress_blocks, get_keys, Move};
use falcon::piece::{KickTable, Mino, MinoData, MinoTable, Spin, SpinBonuses};

/// Cell offsets of one rotation drawn in a `w`-wide box, top row first.
fn cells(w: usize, rows: &[&str]) -> [(u8, u8); 4] {
    let mut out = Vec::new();
    for (r, row) in rows.iter().enumerate() {
        for (c, ch) in row.chars().enumerate() {
            if ch == 'X' {
                out.push(((w - 1 - c) as u8, r as u8));
            }
        }
    }
    assert_eq!(out.len(), 4);
    [out[0], out[1], out[2], out[3]]
}

fn piece(w: usize, rots: [[&str; 4]; 4], corners: bool) -> MinoData {
    let rotations = [cells(w, &rots[0]), cells(w, &rots[1]), cells(w, &rots[2]), cells(w, &rots[3])];
    // T corners: the four corners of the 3x3 box (top-left, top-right,
    // bottom-left, bottom-right), as offsets such that the checked cell is
    // (x - dx + 1, y - dy - 1), with the rotations in which each faces front.
    let table = [
        [((3, -1), Some((0, 3))), ((1, -1), Some((0, 1))), ((3, 1), Some((2, 3))), ((1, 1), Some((1, 2)))],
        [((3, -1), Some((0, 3))), ((1, -1), Some((0, 1))), ((3, 1), Some((2, 3))), ((1, 1), Some((1, 2)))],
        [((3, -1), Some((0, 3))), ((1, -1), Some((0, 1))), ((3, 1), Some((2, 3))), ((1, 1), Some((1, 2)))],
        [((3, -1), Some((0, 3))), ((1, -1), Some((0, 1))), ((3, 1), Some((2, 3))), ((1, 1), Some((1, 2)))],
    ];
    MinoData { width: w as u8, rotations, corners: if corners { Some(table) } else { None } }
}

fn srs_table() -> MinoTable {
    let z = piece(3, [["XX.", ".XX", "..."], ["..X", ".XX", ".X."], ["...", "XX.", ".XX"], [".X.", "XX.", "X.."]].map(|r| [r[0], r[1], r[2], ""]), false);
    let l = piece(3, [["..X", "XXX", "..."], [".X.", ".X.", ".XX"], ["...", "XXX", "X.."], ["XX.", ".X.", ".X."]].map(|r| [r[0], r[1], r[2], ""]), false);
    let o = piece(2, [["XX", "XX", "", ""], ["XX", "XX", "", ""], ["XX", "XX", "", ""], ["XX", "XX", "", ""]], false);
    let s = piece(3, [[".XX", "XX.", "..."], [".X.", ".XX", "..X"], ["...", ".XX", "XX."], ["X..", "XX.", ".X."]].map(|r| [r[0], r[1], r[2], ""]), false);
    let i = piece(4, [["....", "XXXX", "....", "...."], ["..X.", "..X.", "..X.", "..X."], ["....", "....", "XXXX", "...."], [".X..", ".X..", ".X..", ".X.."]], false);
    let j = piece(3, [["X..", "XXX", "..."], [".XX", ".X.", ".X."], ["...", "XXX", "..X"], [".X.", ".X.", "XX."]].map(|r| [r[0], r[1], r[2], ""]), false);
    let t = piece(3, [[".X.", "XXX", "..."], [".X.", ".XX", ".X."], ["...", "XXX", ".X."], [".X.", "XX.", ".X."]].map(|r| [r[0], r[1], r[2], ""]), true);
    MinoTable { minos: [z, l, o, s, i, j, t] }
}

fn no_kicks() -> KickTable {
    KickTable { kicks: vec![Vec::new(); 112] }
}

fn config(spins: SpinBonuses) -> GameConfig {
    GameConfig {
        kicks: no_kicks(),
        spins,
        b2b_charging: false,
        b2b_charge_at: 0,
        b2b_charge_base: 0,
        pc_b2b: 0,
        pc_send: 0,
        garbage_special_bonus: false,
    }
}

fn new_game(first: Mino) -> Game {
    Game::new(first, [Mino::I; 32], srs_table())
}

#[test]
fn new_game_spawns_piece() {
    let g = new_game(Mino::T);
    assert_eq!(g.piece.x, 5);
    assert_eq!(g.piece.y, 22);
    assert_eq!(g.piece.rot, 0);
    assert_eq!(g.b2b, -1);
    assert_eq!(g.combo, -1);
    assert!(g.hold.is_none());
    assert_eq!(g.spin, Spin::NoSpin);
    assert!(!g.topped_out());
    let gi = new_game(Mino::I);
    assert_eq!(gi.piece.x, 6);
}

#[test]
fn collision_map_matches_the_board() {
    let mut g = new_game(Mino::T);
    g.board.set(4, 0);
    g.board.set(0, 5);
    g.regen_collision_map();
    let shape = g.piece.shape;
    for rot in 0..4u8 {
        for x in 0..14u8 {
            for y in 0..42u8 {
                let mut expected = x >= 12 || y >= 40;
                for &(dx, dy) in shape.rotations[rot as usize].iter() {
                    if y < dy || x < dx || x - dx >= 10 {
                        expected = true;
                    } else if (g.board.cols[(x - dx) as usize] >> (y - dy)) & 1 == 1 {
                        expected = true;
                    }
                }
                assert_eq!(g.collision_map.test(x, y, rot), expected, "rot {} x {} y {}", rot, x, y);
            }
        }
    }
}

#[test]
fn moves_stop_at_walls() {
    let mut g = new_game(Mino::T);
    assert!(g.move_left());
    assert_eq!(g.piece.x, 4);
    assert!(g.move_right());
    assert_eq!(g.piece.x, 5);
    assert!(g.das_left());
    assert_eq!(g.piece.x, 2);
    assert!(!g.das_left());
    assert!(!g.move_left());
    assert!(g.das_right());
    assert_eq!(g.piece.x, 9);
    assert!(!g.move_right());
}

#[test]
fn soft_drop_lands_on_floor() {
    let mut g = new_game(Mino::O);
    assert!(g.soft_drop());
    assert_eq!(g.piece.y, 1);
    assert!(!g.soft_drop());
}

#[test]
fn hold_swaps_and_takes_next() {
    let mut g = Game::new(Mino::T, [Mino::S; 32], srs_table());
    assert!(g.hold());
    assert_eq!(g.hold, Some(Mino::T));
    assert_eq!(g.piece.mino, Mino::S);
    assert_eq!(g.queue_ptr, 1);
    assert!(g.hold());
    assert_eq!(g.hold, Some(Mino::S));
    assert_eq!(g.piece.mino, Mino::T);
    assert_eq!(g.queue_ptr, 1);
}

#[test]
fn rotate_in_place_and_blocked() {
    let c = config(SpinBonuses::TSpins);
    let mut g = new_game(Mino::T);
    assert_eq!(g.rotate(1, &c), (true, false));
    assert_eq!(g.piece.rot, 1);
    assert_eq!(g.rotate(3, &c), (true, false));
    assert_eq!(g.piece.rot, 0);
    // against the left wall, turning so the piece would stick out fails without kicks
    let mut w = new_game(Mino::I);
    w.piece.rot = 1;
    w.regen_collision_map();
    w.das_left();
    let x = w.piece.x;
    assert_eq!(w.rotate(1, &c), (false, false));
    assert_eq!(w.piece.x, x);
    assert_eq!(w.piece.rot, 1);
}

#[test]
fn rotate_uses_first_free_kick() {
    let mut c = config(SpinBonuses::NoSpins);
    let mut kicks = no_kicks();
    // I piece (index 4), rotation 1 -> 2
    kicks.kicks[4 * 16 + 1 * 4 + 2] = vec![(-5, 0), (1, 0), (2, 0)];
    c.kicks = kicks;
    let mut g = new_game(Mino::I);
    g.piece.rot = 1;
    g.regen_collision_map();
    g.das_left();
    let x = g.piece.x;
    // the horizontal I needs 3 columns to the left of the reference point:
    // the kicks by -5 and +1 still collide, the one by +2 is the first free
    let (ok, kicked) = g.rotate(1, &c);
    assert!(ok && kicked);
    assert_eq!(g.piece.rot, 2);
    assert_eq!(g.piece.x, x + 2);
}

#[test]
fn t_spin_double_is_detected() {
    // A T-slot: the T drops into a slot at the left with overhang.
    let c = config(SpinBonuses::TSpins);
    let mut g = new_game(Mino::T);
    let rows = ["X.XXXXXXXX", "...XXXXXXX", "X........."];
    for (y, row) in rows.iter().enumerate() {
        for (x, ch) in row.chars().enumerate() {
            if ch == 'X' {
                g.board.set(x, y);
            }
        }
    }
    g.regen_collision_map();
    // rotation 2 (point down) at columns 0..=2, rows 0..=1
    g.piece.rot = 2;
    g.piece.x = 2;
    g.piece.y = 2;
    assert!(!g.topped_out());
    g.update_spin(false, &c);
    assert_eq!(g.spin, Spin::Normal);
    assert_eq!(g.detect_spin(false), Spin::Normal);
    let lock = g.lock_piece(&c);
    assert_eq!(lock.cleared, 2);
    assert_eq!(lock.clear_type, Some(Spin::Normal));
    assert_eq!(g.combo, 0);
    assert_eq!(g.b2b, 0);
    assert_eq!(lock.broke_b2b, None);
}

#[test]
fn lock_without_clear_resets_combo() {
    let c = config(SpinBonuses::NoSpins);
    let mut g = new_game(Mino::O);
    g.combo = 3;
    let lock = g.lock_piece(&c);
    assert_eq!(lock.cleared, 0);
    assert_eq!(lock.clear_type, None);
    assert_eq!(g.combo, -1);
    assert_eq!(g.piece.y, 1);
    assert_eq!(g.board.cols[4], 0b11);
    assert_eq!(g.board.cols[5], 0b11);
}

#[test]
fn single_clear_breaks_back_to_back() {
    let c = config(SpinBonuses::NoSpins);
    let mut g = new_game(Mino::I);
    for x in 0..10 {
        if !(3..7).contains(&x) {
            g.board.set(x, 0);
        }
    }
    g.regen_collision_map();
    g.b2b = 2;
    let lock = g.lock_piece(&c);
    assert_eq!(lock.cleared, 1);
    assert_eq!(g.b2b, -1);
    assert_eq!(lock.broke_b2b, Some(2));
    assert_eq!(lock.clear_type, Some(Spin::NoSpin));
    assert_eq!(g.board.cols, [0u64; 10]);
}

#[test]
fn finish_drop_cancels_garbage_with_attack() {
    let mut g = new_game(Mino::O);
    g.garbage = VecDeque::from(vec![
        Garbage { col: 1, amt: 2, time: 0 },
        Garbage { col: 2, amt: 5, time: 3 },
    ]);
    let left = g.finish_drop(1, 4);
    assert_eq!(left, 0);
    let q: Vec<Garbage> = g.garbage.iter().copied().collect();
    assert_eq!(q.len(), 1);
    assert_eq!(q[0].amt, 3);
    assert_eq!(q[0].time, 2);
    assert_eq!(g.queue_ptr, 1);
    assert_eq!(g.piece.mino, Mino::I);
    assert_eq!(g.spin, Spin::NoSpin);
}

#[test]
fn finish_drop_leftover_attack() {
    let mut g = new_game(Mino::O);
    g.garbage = VecDeque::from(vec![Garbage { col: 1, amt: 2, time: 0 }]);
    assert_eq!(g.finish_drop(2, 7), 5);
    assert!(g.garbage.is_empty());
}

#[test]
fn finish_drop_without_clear_takes_arrived_garbage() {
    let mut g = new_game(Mino::O);
    g.garbage = VecDeque::from(vec![
        Garbage { col: 1, amt: 2, time: 0 },
        Garbage { col: 3, amt: 1, time: 0 },
        Garbage { col: 2, amt: 5, time: 1 },
    ]);
    assert_eq!(g.finish_drop(0, 9), 9);
    assert_eq!(g.board.garbage, 3);
    // the later garbage is at the bottom
    assert_eq!(g.board.cols[3] & 1, 0);
    assert_eq!(g.board.cols[1] & 1, 1);
    assert_eq!(g.board.cols[1] & 0b110, 0);
    let q: Vec<Garbage> = g.garbage.iter().copied().collect();
    assert_eq!(q.len(), 1);
    assert_eq!(q[0].time, 0);
}

#[test]
fn compress_blocks_packs_cells() {
    let r = compress_blocks(&[(0, 0), (1, 0), (0, 4), (15, 27)]);
    assert_eq!(r[0], 1 | (1 << 4));
    assert_eq!(r[1], 1);
    assert_eq!(r[6], 1 << 63);
    assert_eq!(r[2], 0);
}

#[test]
fn get_keys_finds_a_path() {
    let c = config(SpinBonuses::TSpins);
    let g = new_game(Mino::T);
    // target: rotation 1, dropped against the left wall
    let mut probe = new_game(Mino::T);
    probe.piece.rot = 1;
    probe.das_left();
    probe.soft_drop();
    let target = (probe.piece.x, probe.piece.y, 1, Spin::NoSpin);
    let keys = get_keys(g, &c, target).expect("a path exists");
    assert_eq!(*keys.last().unwrap(), Move::HardDrop);
    let mut replay = new_game(Mino::T);
    for k in keys.iter() {
        k.run(&mut replay, &c);
    }
    assert_eq!(replay.piece.x, target.0);
    assert_eq!(replay.piece.y, target.1);
    assert_eq!(replay.piece.rot % 2, 1);
}

#[test]
fn get_keys_reports_unreachable_target() {
    let c = config(SpinBonuses::TSpins);
    let g = new_game(Mino::T);
    // floating target: no drop ends there
    assert!(get_keys(g, &c, (5, 20, 0, Spin::NoSpin)).is_none());
}

#[test]
fn board_new_matches_game_board() {
    let g = new_game(Mino::J);
    let b = Board::new();
    assert_eq!(g.board.cols, b.cols);
}

#[test]
fn left_then_right_restores_the_piece() {
    let c = config(SpinBonuses::NoSpins);
    let mut g = new_game(Mino::T);
    let before = g.piece;
    assert!(Move::Left.run(&mut g, &c));
    assert!(Move::Right.run(&mut g, &c));
    assert_eq!((g.piece.x, g.piece.y, g.piece.rot), (before.x, before.y, before.rot));
    assert!(Move::Right.run(&mut g, &c));
    assert!(Move::Left.run(&mut g, &c));
    assert_eq!((g.piece.x, g.piece.y, g.piece.rot), (before.x, before.y, before.rot));
}

#[test]
fn second_soft_drop_and_das_do_nothing() {
    let c = config(SpinBonuses::NoSpins);
    let mut g = new_game(Mino::L);
    assert!(Move::SoftDrop.run(&mut g, &c));
    let y = g.piece.y;
    assert!(!Move::SoftDrop.run(&mut g, &c));
    assert_eq!(g.piece.y, y);
    assert!(Move::DasLeft.run(&mut g, &c));
    let x = g.piece.x;
    assert!(!Move::DasLeft.run(&mut g, &c));
    assert_eq!(g.piece.x, x);
    assert!(Move::DasRight.run(&mut g, &c));
    let x = g.piece.x;
    assert!(!Move::DasRight.run(&mut g, &c));
    assert_eq!(g.piece.x, x);
    // a hard drop only drops the piece and always counts as done
    assert!(Move::HardDrop.run(&mut g, &c));
    assert_eq!(g.piece.x, x);
}

#[test]
fn hold_twice_gives_the_piece_back() {
    let c = config(SpinBonuses::NoSpins);
    let mut g = Game::new(Mino::T, [Mino::S; 32], srs_table());
    g.hold = Some(Mino::Z);
    g.piece.rot = 2;
    g.move_left();
    assert!(Move::Hold.run(&mut g, &c));
    assert_eq!(g.piece.mino, Mino::Z);
    assert_eq!(g.hold, Some(Mino::T));
    assert!(Move::Hold.run(&mut g, &c));
    assert_eq!(g.piece.mino, Mino::T);
    assert_eq!(g.hold, Some(Mino::Z));
    assert_eq!((g.piece.x, g.piece.y, g.piece.rot), (5, 22, 2));
    assert_eq!(g.queue_ptr, 0);
}

#[test]
fn attack_cancels_garbage_row_for_row() {
    let mut g = new_game(Mino::O);
    g.garbage = VecDeque::from(vec![
        Garbage { col: 1, amt: 3, time: 2 },
        Garbage { col: 2, amt: 2, time: 4 },
        Garbage { col: 4, amt: 6, time: 5 },
    ]);
    let before: u32 = g.garbage.iter().map(|x| x.amt as u32).sum();
    let left = g.finish_drop(1, 7);
    let after: u32 = g.garbage.iter().map(|x| x.amt as u32).sum();
    assert_eq!(left, 0);
    assert_eq!(before - after, 7);
    let q: Vec<Garbage> = g.garbage.iter().copied().collect();
    assert_eq!(q.len(), 1);
    assert_eq!((q[0].col, q[0].amt, q[0].time), (4, 4, 4));
}

#[test]
fn landing_row_and_drop_fits() {
    let mut g = new_game(Mino::I);
    assert_eq!(g.landing_row(), 1);
    assert_eq!(g.piece.y, 22);
    assert!(g.drop_fits());
    g.board.set(5, 10);
    g.regen_collision_map();
    assert_eq!(g.landing_row(), 12);
    // a reference point left of the piece's cells puts a cell outside
    g.piece.x = 1;
    assert!(!g.drop_fits());
}

#[test]
fn lock_fits_only_refuses_an_overflowing_lock() {
    let mut c = config(SpinBonuses::NoSpins);
    // no clear: full counters are reset or kept, never raised
    let mut g = new_game(Mino::O);
    g.combo = i16::MAX;
    g.b2b = i16::MAX;
    assert!(g.lock_fits(&c));
    // a four-row clear raises both
    let mut q = new_game(Mino::I);
    q.piece.rot = 1;
    q.regen_collision_map();
    q.das_left();
    let col = (q.piece.x - q.piece.shape.rotations[1][0].0) as usize;
    for x in 0..10 {
        if x != col {
            for y in 0..4 {
                q.board.set(x, y);
            }
        }
    }
    q.regen_collision_map();
    assert!(q.lock_fits(&c));
    q.combo = i16::MAX;
    assert!(!q.lock_fits(&c));
    q.combo = 0;
    q.b2b = i16::MAX;
    assert!(!q.lock_fits(&c));
    c.pc_b2b = 2;
    assert!(!q.lock_fits(&c));
    // a reference point left of the piece's cells puts a cell outside
    let mut o = new_game(Mino::O);
    o.piece.x = 0;
    assert!(!o.lock_fits(&c));
}

#[test]
fn falcon_plays_a_whole_step() {
    let mut f = Falcon::new(srs_table());
    assert!(f.place(None).is_none());
    f.start(config(SpinBonuses::TSpins), 12345, Bag::Bag7);
    let first = f.game.piece.mino;
    assert_eq!(f.game.queue_ptr, 0);
    assert_eq!(f.game.queue[0], f.queue.queue[0]);
    // no choice: a lone hard drop
    let p = f.place(None).expect("rules are set");
    assert_eq!(p.keys, vec![Move::HardDrop]);
    assert!(!p.double_shift);
    let lock = f.lock().expect("the piece fits");
    assert_eq!(lock.cleared, 0);
    let next = f.queue.queue[0];
    assert_eq!(f.finish(lock.cleared, 0, p.double_shift), 0);
    assert_eq!(f.game.piece.mino, next);
    assert_eq!(f.game.queue_ptr, 0);
    assert_eq!(f.game.queue[0], f.queue.queue[0]);
    assert_ne!(f.game.board.cols, [0u64; 10]);
    let _ = first;
}

#[test]
fn falcon_place_reaches_the_target_with_hold() {
    let mut f = Falcon::new(srs_table());
    f.start(config(SpinBonuses::TSpins), 7, Bag::Bag7);
    let held_next = f.game.queue[0];
    let first = f.game.piece.mino;
    // hold, then drop the next piece flat at the left wall
    let mut probe = Game::new(held_next, [Mino::I; 32], srs_table());
    probe.das_left();
    probe.soft_drop();
    let target = (probe.piece.x, probe.piece.y, 0u8, true, Spin::NoSpin);
    let p = f.place(Some(target)).expect("a path exists");
    assert_eq!(p.keys[0], Move::Hold);
    assert_eq!(*p.keys.last().unwrap(), Move::HardDrop);
    assert!(p.double_shift);
    assert_eq!(f.game.hold, Some(first));
    assert_eq!(f.game.piece.mino, held_next);
    assert_eq!((f.game.piece.x, f.game.piece.y), (target.0, target.1));
    assert!(f.game.garbage.is_empty());
    let lock = f.lock().expect("fits");
    let q1 = f.queue.queue[1];
    f.finish(lock.cleared, 0, p.double_shift);
    // the queue moved on by two pieces
    assert_eq!(f.game.piece.mino, q1);
}

#[test]
fn falcon_insert_garbage_raises_the_board() {
    let mut f = Falcon::new(srs_table());
    f.insert_garbage(vec![Garbage { col: 3, amt: 2, time: 0 }]);
    assert_eq!(f.game.board.garbage, 2);
    for x in 0..10 {
        assert_eq!(f.game.board.cols[x] & 0b11, if x == 3 { 0 } else { 0b11 });
    }
}

#[test]
fn back_to_back_charge_needs_a_long_chain() {
    let mut c = config(SpinBonuses::NoSpins);
    c.b2b_charging = true;
    c.b2b_charge_at = 4;
    c.b2b_charge_base = 3;
    assert_eq!(falcon::game::b2b_charge(Some(3), &c), None);
    assert_eq!(falcon::game::b2b_charge(Some(4), &c), Some(4));
    assert_eq!(falcon::game::b2b_charge(Some(10), &c), Some(10));
    assert_eq!(falcon::game::b2b_charge(None, &c), None);
    c.b2b_charging = false;
    assert_eq!(falcon::game::b2b_charge(Some(10), &c), None);
}

#[test]
fn falcon_refuses_without_rules_or_room() {
    let mut f = Falcon::new(srs_table());
    assert!(f.lock().is_none());
    f.start(config(SpinBonuses::NoSpins), 3, Bag::Bag7);
    // a floating target has no keys
    assert!(f.place(Some((5, 20, 0, false, Spin::NoSpin))).is_none());
    // a full combo counter does not stop a lock that clears nothing
    let mut g = Falcon::new(srs_table());
    g.start(config(SpinBonuses::NoSpins), 3, Bag::Bag7);
    g.game.combo = i16::MAX;
    let lock = g.lock().expect("nothing overflows");
    assert_eq!(lock.cleared, 0);
    assert_eq!(g.game.combo, -1);
}

#[test]
fn get_keys_answers_a_straight_drop_with_one_key() {
    let c = config(SpinBonuses::TSpins);
    let g = new_game(Mino::T);
    let mut probe = new_game(Mino::T);
    probe.soft_drop();
    let keys = get_keys(g, &c, (probe.piece.x, probe.piece.y, 0, Spin::NoSpin)).expect("a straight drop");
    assert_eq!(keys, vec![Move::HardDrop]);
    // a rotation outside 0..4, or a target whose cells leave the field, has no keys
    assert!(get_keys(new_game(Mino::T), &c, (probe.piece.x, probe.piece.y, 4, Spin::NoSpin)).is_none());
    assert!(get_keys(new_game(Mino::T), &c, (0, 1, 0, Spin::NoSpin)).is_none());
}

#[test]
fn get_keys_never_drops_early_and_stays_short() {
    let c = config(SpinBonuses::TSpins);
    for (rot, x_shift) in [(1u8, -3i32), (2, 2), (3, 3), (0, -2)] {
        let mut probe = new_game(Mino::T);
        probe.piece.rot = rot;
        probe.piece.x = (probe.piece.x as i32 + x_shift) as u8;
        if probe.topped_out() {
            continue;
        }
        probe.soft_drop();
        let keys = get_keys(new_game(Mino::T), &c, (probe.piece.x, probe.piece.y, rot, Spin::NoSpin)).expect("reachable");
        assert!(keys.len() <= 17);
        assert_eq!(*keys.last().unwrap(), Move::HardDrop);
        assert!(keys[..keys.len() - 1].iter().all(|k| *k != Move::HardDrop && *k != Move::NoMove));
    }
}
