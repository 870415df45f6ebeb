use falcon::board::Board;
use falcon::damage::base_damage;
use falcon::eval::{eval, four_wide, handtuned, Weights};
use falcon::game::Game;
use falcon::piece::{Mino, MinoData, MinoTable, Spin};
use falcon::trainer::{best_player, exchange, match_pairs, ranking, Exchange};

fn flat_table() -> MinoTable {
    let d = MinoData { width: 3, rotations: [[(0, 0), (1, 0), (2, 0), (1, 1)]; 4], corners: None };
    MinoTable { minos: [d; 7] }
}

#[test]
fn base_damage_table() {
    assert_eq!(base_damage(0, Spin::Normal), 0);
    assert_eq!(base_damage(1, Spin::NoSpin), 0);
    assert_eq!(base_damage(1, Spin::Normal), 2);
    assert_eq!(base_damage(2, Spin::Mini), 1);
    assert_eq!(base_damage(2, Spin::Normal), 4);
    assert_eq!(base_damage(3, Spin::NoSpin), 2);
    assert_eq!(base_damage(3, Spin::Normal), 6);
    assert_eq!(base_damage(4, Spin::NoSpin), 4);
    assert_eq!(base_damage(4, Spin::Mini), 10);
}

#[test]
fn exchange_sends_the_difference() {
    assert_eq!(exchange(5, 2), Exchange::ToSecond(3));
    assert_eq!(exchange(1, 4), Exchange::ToFirst(3));
    assert_eq!(exchange(3, 3), Exchange::Even);
    assert_eq!(exchange(300, 0), Exchange::ToSecond(44));
}

#[test]
fn pairs_cover_every_match_once() {
    assert_eq!(match_pairs(4), vec![(0, 1), (0, 2), (0, 3), (1, 2), (1, 3), (2, 3)]);
    assert!(match_pairs(1).is_empty());
    assert!(match_pairs(0).is_empty());
}

#[test]
fn ranking_is_stable_best_first() {
    assert_eq!(ranking(&vec![3, 5, 3, 9, 0]), vec![3, 1, 0, 2, 4]);
    assert_eq!(ranking(&vec![]), Vec::<usize>::new());
    assert_eq!(ranking(&vec![1, 1, 1]), vec![0, 1, 2]);
}

#[test]
fn best_player_takes_the_last_of_equals() {
    assert_eq!(best_player(&vec![2, 7, 7, 1]), 2);
    assert_eq!(best_player(&vec![4]), 0);
    assert_eq!(best_player(&vec![9, 1, 2]), 0);
}

#[test]
fn weights_mutate_by_steps() {
    let w = handtuned();
    let mut steps = [0i8; 15];
    steps[0] = 1;
    steps[10] = -1;
    let m = w.mutate(20, steps);
    assert_eq!(m.height, -30);
    assert_eq!(m.combo, 10);
    assert_eq!(m.holes, w.holes);
    assert_eq!(four_wide().combo, 10000);
}

#[test]
fn eval_of_an_empty_board() {
    let g = Game::new(Mino::T, [Mino::I; 32], flat_table());
    let w: Weights = handtuned();
    // empty board: only the clears, the sent rows, back-to-back and combo count
    // (combo -1 adds nothing), one well of ten columns is none extra
    let score = eval(&w, &g, 2, vec![Spin::Normal, Spin::NoSpin], 3);
    let expected = (140 + -70) * 1000 + 2 * 1000 * 0 + 3 * 80 + 0;
    assert_eq!(score, expected);
}

#[test]
fn eval_counts_height_and_holes() {
    let mut g = Game::new(Mino::T, [Mino::I; 32], flat_table());
    g.board = Board::new();
    g.board.set(0, 0);
    g.board.set(0, 2);
    let w = handtuned();
    let b = &g.board;
    assert_eq!(b.max_height(), 3);
    assert_eq!(b.count_holes(), 1);
    let score = eval(&w, &g, 0, vec![], 0);
    let expected = (3 * 1000 / 20) * -50
        + (b.center_height() * 1000 / 20) * -100
        + (b.wells() * 1000) * -100
        + (b.count_holes() * 1000) * -15
        + (b.covered_holes() * 1000) * -60
        + (b.overstacked_holes() * 1000) * -40
        + (b.unevenness() * 1000) * -30;
    assert_eq!(score, expected);
}

#[test]
fn eval_adds_up_over_summed_weights() {
    let mut g = Game::new(Mino::T, [Mino::I; 32], flat_table());
    g.board.set(0, 0);
    g.board.set(0, 2);
    g.board.set(4, 0);
    g.combo = 2;
    let w1 = handtuned();
    let w2 = four_wide();
    let w3 = Weights {
        height: w1.height + w2.height,
        upper_half_height: w1.upper_half_height + w2.upper_half_height,
        upper_quarter_height: w1.upper_quarter_height + w2.upper_quarter_height,
        center_height: w1.center_height + w2.center_height,
        extra_wells: w1.extra_wells + w2.extra_wells,
        clear_none: w1.clear_none + w2.clear_none,
        clear_mini: w1.clear_mini + w2.clear_mini,
        clear_normal: w1.clear_normal + w2.clear_normal,
        sent: w1.sent + w2.sent,
        b2b: w1.b2b + w2.b2b,
        combo: w1.combo + w2.combo,
        holes: w1.holes + w2.holes,
        covered_holes: w1.covered_holes + w2.covered_holes,
        overstacked_holes: w1.overstacked_holes + w2.overstacked_holes,
        unevenness: w1.unevenness + w2.unevenness,
    };
    let clears = vec![Spin::Mini, Spin::NoSpin];
    let e1 = eval(&w1, &g, 3, clears.clone(), 693);
    let e2 = eval(&w2, &g, 3, clears.clone(), 693);
    let e3 = eval(&w3, &g, 3, clears, 693);
    assert_eq!(e3, e1 + e2);
}
