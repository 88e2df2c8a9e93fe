use tetrominoes::board::{Board, BOARD_HEIGHT, BOARD_WIDTH};
use tetrominoes::cell::{Cell, CELL_SIZE};
use tetrominoes::piece::Piece;
use tetrominoes::render::{board_draw_commands, piece_draw_commands, BlockCmd};

#[test]
fn test_cell_size_constant() {
    assert_eq!(CELL_SIZE, 16);
}

#[test]
fn test_board_draw_commands_positions() {
    let mut b = Board::new(BOARD_WIDTH, BOARD_HEIGHT);
    b.cells[0][0] = Cell::Full(2);
    b.cells[1][3] = Cell::Full(5);
    let cmds = board_draw_commands(&b);
    assert_eq!(
        cmds,
        vec![
            BlockCmd { x: 1, y: 1, color: 2, translucent: false },
            BlockCmd { x: 49, y: 17, color: 5, translucent: false },
        ]
    );
}

#[test]
fn test_board_draw_commands_empty_board() {
    let b = Board::new(BOARD_WIDTH, BOARD_HEIGHT);
    assert!(board_draw_commands(&b).is_empty());
}

#[test]
fn test_board_draw_commands_row_major_order() {
    let mut b = Board::new(BOARD_WIDTH, BOARD_HEIGHT);
    b.cells[4][9] = Cell::Full(1);
    b.cells[4][2] = Cell::Full(1);
    b.cells[2][5] = Cell::Full(3);
    let cmds = board_draw_commands(&b);
    assert_eq!(cmds.len(), 3);
    assert_eq!((cmds[0].x, cmds[0].y), (81, 33)); // (2,5)
    assert_eq!((cmds[1].x, cmds[1].y), (33, 65)); // (4,2)
    assert_eq!((cmds[2].x, cmds[2].y), (145, 65)); // (4,9)
}

#[test]
fn test_piece_draw_commands_offsets() {
    let mut p = Piece::new(6); // O: blocks (0,0),(0,1),(1,0),(1,1)
    p.row = 2;
    p.column = 1;
    let cmds = piece_draw_commands(&p);
    assert_eq!(
        cmds,
        vec![
            BlockCmd { x: 17, y: 33, color: 6, translucent: false },
            BlockCmd { x: 33, y: 33, color: 6, translucent: false },
            BlockCmd { x: 17, y: 49, color: 6, translucent: false },
            BlockCmd { x: 33, y: 49, color: 6, translucent: false },
        ]
    );
}

#[test]
fn test_piece_draw_commands_carry_ghost_flag() {
    let mut p = Piece::new(4);
    p.translucent = true;
    p.row = 0;
    p.column = 0;
    let cmds = piece_draw_commands(&p);
    assert_eq!(cmds.len(), 4);
    assert!(cmds.iter().all(|c| c.translucent && c.color == 4));
}

#[test]
fn test_piece_draw_commands_negative_rows_kept() {
    // A spawning piece above the board still yields commands (the caller
    // may clip them); offsets go negative with the row.
    let mut p = Piece::new(6);
    p.row = -2;
    p.column = 3;
    let cmds = piece_draw_commands(&p);
    assert_eq!(cmds.len(), 4);
    assert_eq!(cmds[0].y, 1 + 16 * (-2i64));
}
