use tetrominoes::board::{Board, BOARD_HEIGHT, BOARD_WIDTH};
use tetrominoes::cell::Cell;
use tetrominoes::piece::Piece;

fn empty_board() -> Board {
    Board::new(BOARD_WIDTH, BOARD_HEIGHT)
}

fn fill_row(b: &mut Board, r: usize, color: u8) {
    for c in 0..b.width {
        b.cells[r][c] = Cell::Full(color);
    }
}

fn row_is_empty(b: &Board, r: usize) -> bool {
    b.cells[r].iter().all(|c| !c.is_full())
}

#[test]
fn test_new_board_is_empty() {
    let b = empty_board();
    assert_eq!(b.width, 10);
    assert_eq!(b.height, 20);
    for r in 0..20 {
        assert!(row_is_empty(&b, r));
    }
}

#[test]
fn test_clear_rows_bottom_two_full() {
    // Rows 18 and 19 fully full, row 17 partially full: the partial row
    // must land on the bottom and everything above it must be empty.
    let mut b = empty_board();
    fill_row(&mut b, 18, 1);
    fill_row(&mut b, 19, 2);
    b.cells[17][0] = Cell::Full(6);
    b.cells[17][4] = Cell::Full(6);
    let old_row_17 = b.cells[17].clone();
    let cleared = b.clear_rows();
    assert_eq!(cleared, 2);
    assert_eq!(b.cells[19], old_row_17);
    for r in 0..19 {
        assert!(row_is_empty(&b, r), "row {} should be empty", r);
    }
}

#[test]
fn test_clear_rows_gap_cascade() {
    // Rows 17 and 19 full with a non-full row 18 between them: both full
    // rows go, the survivor falls to the bottom.
    let mut b = empty_board();
    fill_row(&mut b, 17, 1);
    fill_row(&mut b, 19, 2);
    b.cells[18][3] = Cell::Full(5);
    let old_row_18 = b.cells[18].clone();
    let cleared = b.clear_rows();
    assert_eq!(cleared, 2);
    assert_eq!(b.cells[19], old_row_18);
    for r in 0..19 {
        assert!(row_is_empty(&b, r), "row {} should be empty", r);
    }
}

#[test]
fn test_clear_rows_second_call_clears_nothing() {
    let mut b = empty_board();
    fill_row(&mut b, 15, 1);
    fill_row(&mut b, 19, 3);
    b.cells[18][7] = Cell::Full(2);
    assert_eq!(b.clear_rows(), 2);
    let snapshot: Vec<Vec<Cell>> = b.cells.clone();
    assert_eq!(b.clear_rows(), 0);
    assert_eq!(b.cells, snapshot);
}

#[test]
fn test_clear_rows_preserves_survivor_order() {
    // Two distinct partial rows separated by full rows: each survivor
    // falls by exactly the number of full rows beneath it, keeping their
    // top-to-bottom order.
    let mut b = empty_board();
    b.cells[16][1] = Cell::Full(4); // survivor A, two full rows below
    fill_row(&mut b, 17, 1);
    b.cells[18][7] = Cell::Full(5); // survivor B, one full row below
    fill_row(&mut b, 19, 2);
    let row_a = b.cells[16].clone();
    let row_b = b.cells[18].clone();
    assert_eq!(b.clear_rows(), 2);
    assert_eq!(b.cells[18], row_a);
    assert_eq!(b.cells[19], row_b);
    for r in 0..18 {
        assert!(row_is_empty(&b, r));
    }
}

#[test]
fn test_clear_rows_empty_board() {
    let mut b = empty_board();
    assert_eq!(b.clear_rows(), 0);
    for r in 0..20 {
        assert!(row_is_empty(&b, r));
    }
}

#[test]
fn test_clear_rows_all_full() {
    // With every row full the scan stops when the cursor meets the count:
    // 19 rows are counted, and the final sweep empties the whole board.
    let mut b = empty_board();
    for r in 0..20 {
        fill_row(&mut b, r, 4);
    }
    assert_eq!(b.clear_rows(), 19);
    for r in 0..20 {
        assert!(row_is_empty(&b, r));
    }
}

#[test]
fn test_clear_rows_full_top_row_not_counted() {
    // Row 0 stands outside the scan: a full top row is erased by the final
    // sweep but never counted.
    let mut b = empty_board();
    fill_row(&mut b, 0, 1);
    assert_eq!(b.clear_rows(), 0);
    for r in 0..20 {
        assert!(row_is_empty(&b, r));
    }
}

#[test]
fn test_collides_in_bounds_piece_is_free() {
    // An O piece fully on an empty board does not collide; pushed a full
    // board width to the right it does.
    let b = empty_board();
    let mut p = Piece::new(6);
    p.row = 5;
    p.column = 4;
    assert!(!b.collides(&p));
    assert!(b.collides(&p.shift(10)));
}

#[test]
fn test_collides_side_and_bottom_bounds() {
    let b = empty_board();
    let mut p = Piece::new(6); // O: blocks in columns 0..2, rows 0..2 of its box
    p.row = 5;
    p.column = -1;
    assert!(b.collides(&p));
    p.column = 9; // columns 9 and 10; 10 is out
    assert!(b.collides(&p));
    p.column = 8; // columns 8 and 9: fits
    assert!(!b.collides(&p));
    p.row = 19; // rows 19 and 20; 20 is below the floor
    assert!(b.collides(&p));
}

#[test]
fn test_collides_above_board_exempt() {
    // Blocks above the visible board are exempt from every check, the side
    // walls included: an O piece whose blocks all sit above row 0 may hang
    // far outside the walls without colliding.
    let b = empty_board();
    let mut p = Piece::new(6); // O: blocks in box rows 0 and 1
    p.row = -2;
    p.column = -5;
    assert!(!b.collides(&p));
    p.column = 100;
    assert!(!b.collides(&p));
    // One row further down, box row 1 reaches board row 0 and the checks
    // apply again.
    p.row = -1;
    assert!(b.collides(&p));
}

#[test]
fn test_collides_with_full_cell() {
    let mut b = empty_board();
    b.cells[6][4] = Cell::Full(1);
    let mut p = Piece::new(6); // O at (5,4) covers (5,4),(5,5),(6,4),(6,5)
    p.row = 5;
    p.column = 4;
    assert!(b.collides(&p));
    p.column = 5; // now covers columns 5 and 6: free
    assert!(!b.collides(&p));
}

#[test]
fn test_set_piece_writes_blocks() {
    let mut b = empty_board();
    let mut p = Piece::new(2); // T: (0,1),(1,0),(1,1),(1,2)
    p.row = 10;
    p.column = 3;
    assert!(!b.collides(&p));
    b.set_piece(&p);
    assert_eq!(b.cells[10][4], Cell::Full(2));
    assert_eq!(b.cells[11][3], Cell::Full(2));
    assert_eq!(b.cells[11][4], Cell::Full(2));
    assert_eq!(b.cells[11][5], Cell::Full(2));
    assert_eq!(b.cells[10][3], Cell::Empty);
    assert_eq!(b.cells[10][5], Cell::Empty);
    assert!(row_is_empty(&b, 9));
    assert!(row_is_empty(&b, 12));
}

#[test]
fn test_set_piece_skips_rows_above_board() {
    // A piece straddling the top edge writes only its on-board blocks.
    let mut b = empty_board();
    let mut p = Piece::new(6); // O: box rows 0 and 1
    p.row = -1;
    p.column = 0;
    // Box row 0 is above the board (exempt); box row 1 is board row 0 and
    // free on an empty board.
    assert!(!b.collides(&p));
    b.set_piece(&p);
    assert_eq!(b.cells[0][0], Cell::Full(6));
    assert_eq!(b.cells[0][1], Cell::Full(6));
    for r in 1..20 {
        assert!(row_is_empty(&b, r));
    }
}
