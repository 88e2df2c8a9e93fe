use tetrominoes::piece::{generate_pieces, make_ghost, Piece};

#[test]
fn test_new_piece_defaults() {
    let p = Piece::new(4);
    assert_eq!(p.row, 0);
    assert_eq!(p.column, 0);
    assert_eq!(p.shape, 4);
    assert_eq!(p.orientation, 0);
    assert_eq!(p.color, 4);
    assert!(!p.translucent);
}

#[test]
fn test_rotate_round_trip() {
    // rotate(1) then rotate(-1) restores the orientation, from every
    // starting orientation of every kind; so does the reverse order.
    for kind in 0..7u8 {
        for start in 0..4 {
            let mut p = Piece::new(kind);
            p.rotate(start);
            let before = p;
            p.rotate(1);
            p.rotate(-1);
            assert_eq!(p, before);
            p.rotate(-1);
            p.rotate(1);
            assert_eq!(p, before);
        }
    }
}

#[test]
fn test_rotate_normalizes_negative() {
    let mut p = Piece::new(0);
    p.rotate(-1);
    assert_eq!(p.orientation, 3);
    p.rotate(-3);
    assert_eq!(p.orientation, 0);
    p.rotate(5);
    assert_eq!(p.orientation, 1);
}

#[test]
fn test_has_block_l_piece() {
    // L, default orientation: blocks at (0,2), (1,0), (1,1), (1,2).
    let p = Piece::new(0);
    let expected = [(0, 2), (1, 0), (1, 1), (1, 2)];
    for i in 0..4 {
        for j in 0..4 {
            assert_eq!(p.has_block(i, j), expected.contains(&(i, j)), "cell ({}, {})", i, j);
        }
    }
}

#[test]
fn test_has_block_i_piece_vertical() {
    // I, orientation 1: a vertical bar in box column 0.
    let mut p = Piece::new(3);
    p.rotate(1);
    for i in 0..4 {
        for j in 0..4 {
            assert_eq!(p.has_block(i, j), j == 0, "cell ({}, {})", i, j);
        }
    }
}

#[test]
fn test_for_each_block_row_major() {
    let p = Piece::new(0); // L
    let blocks = p.for_each_block();
    assert_eq!(blocks, vec![(0, 2), (1, 0), (1, 1), (1, 2)]);
    let o = Piece::new(6); // O
    assert_eq!(o.for_each_block(), vec![(0, 0), (0, 1), (1, 0), (1, 1)]);
}

#[test]
fn test_every_piece_has_four_blocks() {
    for kind in 0..7u8 {
        let mut p = Piece::new(kind);
        for rot in 0..4 {
            p.orientation = rot;
            assert_eq!(p.for_each_block().len(), 4, "kind {} rot {}", kind, rot);
        }
    }
}

#[test]
fn test_shift_changes_column_only() {
    let p = Piece::new(2);
    let q = p.shift(3);
    assert_eq!(q.column, 3);
    assert_eq!(q.row, p.row);
    assert_eq!(q.shape, p.shape);
    assert_eq!(q.orientation, p.orientation);
    let back = q.shift(-3);
    assert_eq!(back, p);
}

#[test]
fn test_prepare_moves_to_spawn() {
    let mut p = Piece::new(5);
    p.row = 12;
    p.column = 7;
    p.rotate(2);
    let s = p.prepare();
    assert_eq!(s.row, -2);
    assert_eq!(s.column, 3);
    assert_eq!(s.orientation, p.orientation);
    assert_eq!(s.shape, 5);
}

#[test]
fn test_make_ghost_translucent_copy() {
    let mut p = Piece::new(1);
    p.row = 4;
    p.column = 2;
    let g = make_ghost(&p);
    assert!(g.translucent);
    assert_eq!(g.row, p.row);
    assert_eq!(g.column, p.column);
    assert_eq!(g.shape, p.shape);
    assert_eq!(g.orientation, p.orientation);
    assert_eq!(g.color, p.color);
}

#[test]
fn test_generate_pieces_each_kind_once() {
    // Every bag holds each of the 7 kinds exactly once, and the shuffle
    // varies over many bags.
    let mut orders: Vec<Vec<u8>> = Vec::new();
    for _ in 0..50 {
        let bag = generate_pieces();
        assert_eq!(bag.len(), 7);
        let kinds: Vec<u8> = bag.iter().map(|p| p.shape).collect();
        let mut counts = [0usize; 7];
        for &k in &kinds {
            counts[k as usize] += 1;
        }
        assert_eq!(counts, [1, 1, 1, 1, 1, 1, 1]);
        for p in &bag {
            assert_eq!(p.row, 0);
            assert_eq!(p.column, 0);
            assert_eq!(p.orientation, 0);
            assert_eq!(p.color, p.shape);
            assert!(!p.translucent);
        }
        orders.push(kinds);
    }
    let first = orders[0].clone();
    assert!(
        orders.iter().any(|o| *o != first),
        "50 consecutive bags in the same order: the shuffle looks broken"
    );
}
