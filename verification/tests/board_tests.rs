use falcon::board::Board;

fn board_from_rows(rows: &[&str]) -> Board {
    // rows[0] is row 0 (the floor); '#' is filled.
    let mut b = Board::new();
    for (y, row) in rows.iter().enumerate() {
        for (x, ch) in row.chars().enumerate() {
            if ch == '#' {
                b.set(x, y);
            }
        }
    }
    b
}

fn filled(b: &Board, x: usize, y: usize) -> bool {
    (b.cols[x] >> y) & 1 == 1
}

#[test]
fn new_board_is_empty() {
    let b = Board::new();
    assert_eq!(b.cols, [0u64; 10]);
    assert_eq!(b.garbage, 0);
}

#[test]
fn set_fills_one_cell() {
    let mut b = Board::new();
    b.set(3, 5);
    assert_eq!(b.cols[3], 1 << 5);
    for x in 0..10 {
        if x != 3 {
            assert_eq!(b.cols[x], 0);
        }
    }
}

#[test]
fn is_occupied_treats_outside_as_filled() {
    let mut b = Board::new();
    b.set(0, 0);
    assert!(b.is_occupied(0, 0));
    assert!(!b.is_occupied(1, 0));
    assert!(b.is_occupied(-1, 0));
    assert!(b.is_occupied(10, 0));
    assert!(b.is_occupied(0, -1));
    assert!(b.is_occupied(0, 40));
    assert!(!b.is_occupied(9, 39));
}

#[test]
fn is_pc_looks_at_row_39() {
    let mut b = Board::new();
    assert!(!b.is_pc());
    b.set(4, 38);
    assert!(!b.is_pc());
    b.set(7, 39);
    assert!(b.is_pc());
}

#[test]
fn clear_deletes_full_rows_and_drops_the_rest() {
    let mut b = board_from_rows(&["##########", "#.........", "##########", "..#......."]);
    let (cleared, garbage_cleared) = b.clear(0, 3);
    assert_eq!(cleared, 2);
    assert!(!garbage_cleared);
    // what remains: old row 1 at row 0, old row 3 at row 1
    assert!(filled(&b, 0, 0));
    assert!(!filled(&b, 1, 0));
    assert!(filled(&b, 2, 1));
    assert!(!filled(&b, 0, 1));
    for x in 0..10 {
        assert_eq!(b.cols[x] >> 2, 0);
    }
}

#[test]
fn clear_ignores_rows_outside_the_range() {
    let mut b = board_from_rows(&["##########", "##########", "##########"]);
    let (cleared, _) = b.clear(1, 1);
    assert_eq!(cleared, 1);
    for x in 0..10 {
        assert_eq!(b.cols[x], 0b11);
    }
}

#[test]
fn clear_with_empty_range_does_nothing() {
    let mut b = board_from_rows(&["##########"]);
    let before = b.cols;
    assert_eq!(b.clear(3, 2), (0, false));
    assert_eq!(b.cols, before);
}

#[test]
fn clear_counts_garbage_rows() {
    let mut b = Board::new();
    b.insert_garbage(3, 0);
    assert_eq!(b.garbage, 3);
    b.set(0, 1); // complete garbage row 1
    let (cleared, garbage_cleared) = b.clear(0, 5);
    assert_eq!(cleared, 1);
    assert!(garbage_cleared);
    assert_eq!(b.garbage, 2);
}

#[test]
fn insert_garbage_raises_rows_and_leaves_a_hole() {
    let mut b = Board::new();
    b.set(5, 0);
    b.insert_garbage(2, 4);
    assert_eq!(b.garbage, 2);
    for x in 0..10 {
        for y in 0..2 {
            assert_eq!(filled(&b, x, y), x != 4);
        }
    }
    assert!(filled(&b, 5, 2));
    assert!(!filled(&b, 4, 2));
}

#[test]
fn insert_zero_garbage_changes_nothing() {
    let mut b = board_from_rows(&["#.#"]);
    let before = b;
    b.insert_garbage(0, 9);
    assert_eq!(b.cols, before.cols);
    assert_eq!(b.garbage, before.garbage);
}

#[test]
fn insert_garbage_drops_rows_past_39_and_caps_height() {
    let mut b = Board::new();
    b.set(0, 39);
    b.insert_garbage(30, 1);
    b.insert_garbage(20, 1);
    assert_eq!(b.garbage, 40);
    assert!(!filled(&b, 0, 40));
    for x in 0..10 {
        assert_eq!(b.cols[x] >> 40, 0);
    }
}

#[test]
fn board_heights() {
    let b = board_from_rows(&["#.........", "#...#....."]);
    assert_eq!(b.max_height(), 2);
    assert_eq!(b.center_height(), 2);
    assert_eq!(b.upper_half_height(), 0);
    assert_eq!(b.upper_quarter_height(), 0);
    let mut tall = Board::new();
    tall.set(9, 34);
    assert_eq!(tall.max_height(), 35);
    assert_eq!(tall.upper_half_height(), 15);
    assert_eq!(tall.upper_quarter_height(), 5);
    assert_eq!(tall.center_height(), 0);
}

#[test]
fn board_holes() {
    // column 1: filled at rows 0 and 3 -> holes at rows 1, 2
    // columns 0 and 2 are filled at rows 1..=2, so both holes of column 1 are
    // covered; the hole of column 0 is covered by the wall and column 1; the
    // hole of column 2 is open to the empty column 3.
    let b = board_from_rows(&[".#.", "#.#", "#.#", ".#."]);
    assert_eq!(b.count_holes(), 2 + 1 + 1);
    assert_eq!(b.covered_holes(), 2 + 1);
    // column 1: lowest covered gap at row 2 (row 2 empty, row 3 filled); top row 3
    // column 0: gap at row 0 covered by row 1; top row 2 -> 2 - 0 - 1 = 1; same for column 2
    assert_eq!(b.overstacked_holes(), 1 + 1 + 0);
}

#[test]
fn board_unevenness_and_wells() {
    let b = board_from_rows(&["##.#######", "##.#######", "##.#######"]);
    assert_eq!(b.unevenness(), 6);
    // one well (column 2): the score counts wells beyond the first
    assert_eq!(b.wells(), 0);
    let c = board_from_rows(&["#.#.######", "#.#.######", "#.#.######"]);
    assert_eq!(c.wells(), 1);
}

#[test]
fn clear_with_an_empty_range_above_the_words_does_nothing() {
    let mut b = Board::new();
    b.set(0, 0);
    assert_eq!(b.clear(200, 100), (0, false));
    assert_eq!(b.cols[0], 1);
}

#[test]
fn garbage_raises_the_tallest_column_and_the_hole_column_holes() {
    let mut b = Board::new();
    b.set(2, 0);
    b.set(2, 1);
    b.set(5, 0);
    let h = b.max_height();
    let holes = b.count_holes();
    let mut with_hole_under = b;
    with_hole_under.insert_garbage(3, 2);
    assert_eq!(with_hole_under.max_height(), h + 3);
    assert_eq!(with_hole_under.count_holes(), holes + 3);
    let mut empty_hole = b;
    empty_hole.insert_garbage(3, 7);
    assert_eq!(empty_hole.max_height(), h + 3);
    assert_eq!(empty_hole.count_holes(), holes);
}
