use tetrominoes::cell::Cell;
use tetrominoes::input::InputState;
use tetrominoes::mainscene::{MainScene, StepResult, FAST_MOVE_WAIT_MS, KEY_WAIT_MS, MOVE_WAIT_MS};
use tetrominoes::piece::Piece;
use tetrominoes::state::{State, Transition};

fn no_keys() -> InputState {
    InputState {
        left: false,
        right: false,
        down: false,
        rotate: false,
        hard_drop: false,
        confirm: false,
        pause: false,
    }
}

fn fill_row_except(ms: &mut MainScene, r: usize, hole_from: usize) {
    for c in 0..ms.board.width {
        if c < hole_from {
            ms.board.cells[r][c] = Cell::Full(1);
        }
    }
}

#[test]
fn test_new_game_state() {
    let ms = MainScene::new();
    assert_eq!(ms.score, 0);
    assert!(!ms.game_over);
    assert!(!ms.paused);
    assert_eq!(ms.move_dt, 0);
    assert_eq!(ms.key_dt, KEY_WAIT_MS);
    assert_eq!(ms.piece.row, -2);
    assert_eq!(ms.piece.column, 3);
    assert_eq!(ms.piece_bag.len(), 6);
    assert!(ms.ghost_piece.translucent);
}

#[test]
fn test_gravity_fires_after_move_wait() {
    let mut ms = MainScene::new();
    let t = ms.update(&no_keys(), MOVE_WAIT_MS);
    assert!(matches!(t, Transition::Stay));
    assert_eq!(ms.piece.row, -1);
    assert_eq!(ms.move_dt, 0);
}

#[test]
fn test_gravity_waits_below_move_wait() {
    let mut ms = MainScene::new();
    let t = ms.update(&no_keys(), MOVE_WAIT_MS - 1);
    assert!(matches!(t, Transition::Stay));
    assert_eq!(ms.piece.row, -2);
    assert_eq!(ms.move_dt, MOVE_WAIT_MS - 1);
}

#[test]
fn test_soft_drop_uses_short_interval() {
    let mut ms = MainScene::new();
    let mut held = no_keys();
    held.down = true;
    ms.update(&held, FAST_MOVE_WAIT_MS);
    assert_eq!(ms.piece.row, -1);
    let mut ms2 = MainScene::new();
    ms2.update(&held, FAST_MOVE_WAIT_MS - 1);
    assert_eq!(ms2.piece.row, -2);
}

#[test]
fn test_left_right_shift_piece() {
    let mut ms = MainScene::new();
    ms.piece.row = 5; // well inside the board
    let mut left = no_keys();
    left.left = true;
    ms.update(&left, 0);
    assert_eq!(ms.piece.column, 2);
    assert_eq!(ms.key_dt, 0);
    // The repeat timer gates the next move until KEY_WAIT_MS passes.
    ms.update(&left, KEY_WAIT_MS - 1);
    assert_eq!(ms.piece.column, 2);
    ms.update(&left, 1);
    assert_eq!(ms.piece.column, 1);
    let mut right = no_keys();
    right.right = true;
    ms.update(&right, KEY_WAIT_MS);
    assert_eq!(ms.piece.column, 2);
}

#[test]
fn test_shift_blocked_by_wall() {
    let mut ms = MainScene::new();
    ms.piece = {
        let mut p = Piece::new(6); // O occupies box columns 0 and 1
        p.row = 5;
        p.column = 0;
        p
    };
    ms.update_ghost();
    let mut left = no_keys();
    left.left = true;
    ms.update(&left, 0);
    assert_eq!(ms.piece.column, 0, "a move into the wall must be rejected");
    let mut right = no_keys();
    right.right = true;
    ms.update(&right, KEY_WAIT_MS);
    assert_eq!(ms.piece.column, 1);
}

#[test]
fn test_hard_drop_locks_at_bottom() {
    let mut ms = MainScene::new();
    let kind = ms.piece.shape;
    let mut drop = no_keys();
    drop.hard_drop = true;
    let t = ms.update(&drop, 0);
    assert!(matches!(t, Transition::Stay));
    // The piece locked: four cells of its color are now in the grid and
    // the next piece spawned from the bag.
    let full: usize =
        (0..20).map(|r| (0..10).filter(|&c| ms.board.cells[r][c].is_full()).count()).sum();
    assert_eq!(full, 4);
    assert!((0..10).any(|c| ms.board.cells[19][c] == Cell::Full(kind)));
    assert_eq!(ms.piece.row, -2);
    assert_eq!(ms.piece_bag.len(), 5);
    assert_eq!(ms.score, 0);
    assert!(!ms.game_over);
}

#[test]
fn test_lock_single_clear_scores_one() {
    let mut ms = MainScene::new();
    // Bottom row full except columns 6..10; a flat I piece completes it.
    fill_row_except(&mut ms, 19, 6);
    let mut p = Piece::new(3); // I, horizontal: box row 0, columns 0..4
    p.row = 19;
    p.column = 6;
    ms.piece = p;
    let r = ms.set_piece();
    assert!(matches!(r, StepResult::Continue));
    assert_eq!(ms.score, 1);
    for r in 0..20 {
        for c in 0..10 {
            assert_eq!(ms.board.cells[r][c], Cell::Empty);
        }
    }
    assert_eq!(ms.piece.row, -2);
}

#[test]
fn test_lock_double_clear_scores_four() {
    let mut ms = MainScene::new();
    // Rows 18 and 19 full except column 9; a vertical I piece fills the
    // column, clearing two rows for 4 points and leaving two of its own
    // blocks behind, shifted down by the two cleared rows.
    fill_row_except(&mut ms, 18, 9);
    fill_row_except(&mut ms, 19, 9);
    let mut p = Piece::new(3);
    p.rotate(1); // vertical: box column 0, rows 0..4
    p.row = 16;
    p.column = 9;
    ms.piece = p;
    let r = ms.set_piece();
    assert!(matches!(r, StepResult::Continue));
    assert_eq!(ms.score, 4);
    assert_eq!(ms.board.cells[18][9], Cell::Full(3));
    assert_eq!(ms.board.cells[19][9], Cell::Full(3));
    let full: usize =
        (0..20).map(|r| (0..10).filter(|&c| ms.board.cells[r][c].is_full()).count()).sum();
    assert_eq!(full, 2);
}

#[test]
fn test_lock_above_board_is_game_over() {
    let mut ms = MainScene::new();
    ms.piece.row = -1;
    ms.score = 42;
    let r = ms.set_piece();
    assert!(matches!(r, StepResult::GameOver(42)));
    assert!(ms.game_over);
    assert_eq!(ms.score, 42);
    for r in 0..20 {
        for c in 0..10 {
            assert_eq!(ms.board.cells[r][c], Cell::Empty, "game over must not write the piece");
        }
    }
}

#[test]
fn test_game_over_state_is_frozen() {
    let mut ms = MainScene::new();
    ms.game_over = true;
    ms.score = 7;
    let snapshot_score = ms.score;
    let snapshot_piece = ms.piece;
    let mut keys = no_keys();
    keys.left = true;
    keys.hard_drop = true;
    let t = ms.update(&keys, 5000);
    assert!(matches!(t, Transition::Pop));
    assert_eq!(ms.score, snapshot_score);
    assert_eq!(ms.piece, snapshot_piece);
    assert!(ms.game_over);
}

#[test]
fn test_rotation_kick_at_right_wall() {
    // A T piece standing against the right wall cannot take its wide
    // orientation in place, but can one column to the left: the kick must
    // commit the shifted candidate.
    let mut ms = MainScene::new();
    let mut p = Piece::new(2); // T
    p.rotate(1); // orientation 1: box columns 0 and 1
    p.row = 5;
    p.column = 8;
    ms.piece = p;
    ms.rotate_piece();
    assert_eq!(ms.piece.orientation, 2, "rotation must go through");
    assert_eq!(ms.piece.column, 7, "the piece must end up kicked one column left");
    assert_eq!(ms.piece.row, 5);
}

#[test]
fn test_rotation_kick_three_columns() {
    // A vertical I piece hugging the right wall needs all three kicks to
    // fit its horizontal orientation.
    let mut ms = MainScene::new();
    let mut p = Piece::new(3); // I
    p.rotate(1); // vertical in box column 0
    p.row = 5;
    p.column = 9;
    ms.piece = p;
    ms.rotate_piece();
    assert_eq!(ms.piece.orientation, 2);
    assert_eq!(ms.piece.column, 6);
}

#[test]
fn test_rotation_boxed_in_unchanged() {
    // A T piece resting on the floor: its tall orientation always pokes
    // below the bottom, in place and after every kick, so the rotation is
    // rejected and the piece stays exactly as it was.
    let mut ms = MainScene::new();
    let mut p = Piece::new(2); // T at orientation 0: bottom of its box is row 1
    p.row = 18;
    p.column = 3;
    ms.piece = p;
    let before = ms.piece;
    ms.rotate_piece();
    assert_eq!(ms.piece, before, "a fully blocked rotation must change nothing");
}

#[test]
fn test_ghost_projects_to_floor() {
    let mut ms = MainScene::new();
    let mut p = Piece::new(6); // O: box rows 0 and 1
    p.row = 0;
    p.column = 3;
    ms.piece = p;
    ms.update_ghost();
    assert!(ms.ghost_piece.translucent);
    assert_eq!(ms.ghost_piece.row, 18);
    assert_eq!(ms.ghost_piece.column, 3);
    assert_eq!(ms.piece.row, 0, "projecting the ghost must not move the piece");
}

#[test]
fn test_ghost_rests_on_stack() {
    let mut ms = MainScene::new();
    for c in 0..10 {
        ms.board.cells[15][c] = Cell::Full(1);
    }
    let mut p = Piece::new(6);
    p.row = 0;
    p.column = 4;
    ms.piece = p;
    ms.update_ghost();
    assert_eq!(ms.ghost_piece.row, 13);
}

#[test]
fn test_pause_key_pushes_overlay() {
    let mut ms = MainScene::new();
    let ghost_before = ms.ghost_piece;
    let mut keys = no_keys();
    keys.pause = true;
    let t = ms.update(&keys, 0);
    assert!(matches!(t, Transition::Push(State::Pause(_))));
    assert!(!ms.paused, "the stack's pause hook, not the update, marks the scene");
    assert_eq!(ms.ghost_piece, ghost_before, "the paused frame ends before the ghost pass");
}

#[test]
fn test_bag_refills_after_seven_locks() {
    let mut ms = MainScene::new();
    // Drain the bag by locking pieces high on an empty board, clearing the
    // grid between locks so nothing stacks up.
    assert_eq!(ms.piece_bag.len(), 6);
    for expected in [5usize, 4, 3, 2, 1, 7] {
        let mut p = ms.piece;
        p.row = 5;
        p.column = 3;
        ms.piece = p;
        let r = ms.set_piece();
        assert!(matches!(r, StepResult::Continue));
        for row in 0..20 {
            for c in 0..10 {
                ms.board.cells[row][c] = Cell::Empty;
            }
        }
        assert_eq!(ms.piece_bag.len(), expected);
    }
}
