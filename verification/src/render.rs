use vstd::prelude::*;

use crate::board::Board;
use crate::cell::{Cell, CELL_SIZE};
use crate::piece::{shape_occupies, Piece};

verus! {

/// One filled block for the renderer: the pixel offset of its top-left
/// corner relative to the drawing origin (one pixel in from the cell
/// corner), the palette color to fill it with, and whether it is drawn
/// with the ghost opacity.
#[derive(Clone, Copy, Debug, PartialEq, Eq, Structural)]
pub struct BlockCmd {
    pub x: i64,
    pub y: i64,
    pub color: u8,
    pub translucent: bool,
}

/// The command that draws board cell (r, c) when it holds color `col`.
pub open spec fn board_block(r: int, c: int, col: u8) -> BlockCmd {
    BlockCmd {
        x: (1 + (CELL_SIZE as int) * c) as i64,
        y: (1 + (CELL_SIZE as int) * r) as i64,
        color: col,
        translucent: false,
    }
}

/// `cmd` draws some full cell of the board.
pub open spec fn is_board_block(b: Board, cmd: BlockCmd) -> bool {
    exists|r: int, c: int|
        0 <= r < b.height && 0 <= c < b.width && #[trigger] b.grid()[r][c] == Cell::Full(cmd.color)
            && cmd == board_block(r, c, cmd.color)
}

/// The command that draws box cell (i, j) of piece `p`.
pub open spec fn piece_block(p: Piece, i: int, j: int) -> BlockCmd {
    BlockCmd {
        x: (1 + (CELL_SIZE as int) * (p.column + j)) as i64,
        y: (1 + (CELL_SIZE as int) * (p.row + i)) as i64,
        color: p.color,
        translucent: p.translucent,
    }
}

/// The filled blocks of the board in row-major order: exactly one command
/// for each full cell, none for empty ones.
pub fn board_draw_commands(b: &Board) -> (cmds: Vec<BlockCmd>)
    requires
        b.wf(),
    ensures
        forall|k: int| 0 <= k < cmds@.len() ==> is_board_block(*b, #[trigger] cmds@[k]),
        forall|r: int, c: int|
            0 <= r < b.height && 0 <= c < b.width && (#[trigger] b.grid()[r][c]) is Full
                ==> cmds@.contains(board_block(r, c, b.grid()[r][c]->0)),
        forall|k1: int, k2: int|
            0 <= k1 < k2 < cmds@.len() ==> ((#[trigger] cmds@[k1]).y < (#[trigger] cmds@[k2]).y
                || (cmds@[k1].y == cmds@[k2].y && cmds@[k1].x < cmds@[k2].x)),
{
    let ghost w = b.width as int;
    let ghost h = b.height as int;
    let mut cmds: Vec<BlockCmd> = Vec::new();
    let mut r: usize = 0;
    while r < b.height
        invariant
            b.wf(),
            w == b.width as int,
            h == b.height as int,
            r <= b.height,
            forall|k: int| 0 <= k < cmds@.len() ==> is_board_block(*b, #[trigger] cmds@[k]),
            forall|rr: int, cc: int|
                0 <= rr < r && 0 <= cc < w && (#[trigger] b.grid()[rr][cc]) is Full
                    ==> cmds@.contains(board_block(rr, cc, b.grid()[rr][cc]->0)),
            forall|k: int|
                0 <= k < cmds@.len() ==> (#[trigger] cmds@[k]).y < 1 + (CELL_SIZE as int) * r,
            forall|k1: int, k2: int|
                0 <= k1 < k2 < cmds@.len() ==> ((#[trigger] cmds@[k1]).y < (
                #[trigger] cmds@[k2]).y || (cmds@[k1].y == cmds@[k2].y && cmds@[k1].x
                    < cmds@[k2].x)),
        decreases b.height - r,
    {
        let mut c: usize = 0;
        while c < b.width
            invariant
                b.wf(),
                w == b.width as int,
                h == b.height as int,
                r < b.height,
                c <= b.width,
                forall|k: int| 0 <= k < cmds@.len() ==> is_board_block(*b, #[trigger] cmds@[k]),
                forall|rr: int, cc: int|
                    0 <= rr < r && 0 <= cc < w && (#[trigger] b.grid()[rr][cc]) is Full
                        ==> cmds@.contains(board_block(rr, cc, b.grid()[rr][cc]->0)),
                forall|cc: int|
                    0 <= cc < c && (#[trigger] b.grid()[r as int][cc]) is Full ==> cmds@.contains(
                        board_block(r as int, cc, b.grid()[r as int][cc]->0),
                    ),
                forall|k: int|
                    0 <= k < cmds@.len() ==> (#[trigger] cmds@[k]).y < 1 + (CELL_SIZE as int) * (
                    r as int) || (cmds@[k].y == 1 + (CELL_SIZE as int) * (r as int) && cmds@[k].x
                        < 1 + (CELL_SIZE as int) * c),
                forall|k1: int, k2: int|
                    0 <= k1 < k2 < cmds@.len() ==> ((#[trigger] cmds@[k1]).y < (
                    #[trigger] cmds@[k2]).y || (cmds@[k1].y == cmds@[k2].y && cmds@[k1].x
                        < cmds@[k2].x)),
            decreases b.width - c,
        {
            let cell = cell_at(b, r, c);
            match cell {
                Cell::Full(col) => {
                    let x: i64 = 1 + (CELL_SIZE as i64) * (c as i64);
                    let y: i64 = 1 + (CELL_SIZE as i64) * (r as i64);
                    let cmd = BlockCmd { x, y, color: col, translucent: false };
                    let ghost prev = cmds@;
                    cmds.push(cmd);
                    proof {
                        assert(cmd == board_block(r as int, c as int, col));
                        assert(is_board_block(*b, cmd));
                        assert(cmds@[cmds@.len() - 1] == cmd);
                        assert forall|rr: int, cc: int|
                            0 <= rr < r && 0 <= cc < w && (#[trigger] b.grid()[rr][cc]) is Full
                                implies cmds@.contains(
                            board_block(rr, cc, b.grid()[rr][cc]->0),
                        ) by {
                            assert(prev.contains(board_block(rr, cc, b.grid()[rr][cc]->0)));
                            let n = choose|n: int|
                                0 <= n < prev.len() && prev[n] == board_block(
                                    rr,
                                    cc,
                                    b.grid()[rr][cc]->0,
                                );
                            assert(cmds@[n] == board_block(rr, cc, b.grid()[rr][cc]->0));
                        }
                        assert forall|cc: int|
                            0 <= cc < c + 1 && (#[trigger] b.grid()[r as int][cc]) is Full
                                implies cmds@.contains(
                            board_block(r as int, cc, b.grid()[r as int][cc]->0),
                        ) by {
                            if cc < c {
                                assert(prev.contains(
                                    board_block(r as int, cc, b.grid()[r as int][cc]->0),
                                ));
                                let n = choose|n: int|
                                    0 <= n < prev.len() && prev[n] == board_block(
                                        r as int,
                                        cc,
                                        b.grid()[r as int][cc]->0,
                                    );
                                assert(cmds@[n] == board_block(
                                    r as int,
                                    cc,
                                    b.grid()[r as int][cc]->0,
                                ));
                            } else {
                                assert(cmds@[cmds@.len() - 1] == board_block(
                                    r as int,
                                    cc,
                                    b.grid()[r as int][cc]->0,
                                ));
                            }
                        }
                    }
                },
                Cell::Empty => {},
            }
            c += 1;
        }
        r += 1;
    }
    cmds
}

/// Read one cell of the board.
fn cell_at(b: &Board, r: usize, c: usize) -> (cell: Cell)
    requires
        b.wf(),
        r < b.height,
        c < b.width,
    ensures
        cell == b.grid()[r as int][c as int],
{
    b.cells[r][c]
}

/// `cmd` draws some occupied box cell of piece `p`.
pub open spec fn is_piece_block(p: Piece, cmd: BlockCmd) -> bool {
    exists|i: int, j: int|
        #[trigger] shape_occupies(p.shape as int, p.orientation as int, i, j) && cmd
            == piece_block(p, i, j)
}

/// The filled blocks of a piece at its current position, in row-major
/// order over its bounding box: one command per occupied box cell,
/// carrying the piece's color and its ghost flag.
pub fn piece_draw_commands(p: &Piece) -> (cmds: Vec<BlockCmd>)
    requires
        p.wf(),
    ensures
        forall|k: int| 0 <= k < cmds@.len() ==> is_piece_block(*p, #[trigger] cmds@[k]),
        forall|i: int, j: int|
            #[trigger] shape_occupies(p.shape as int, p.orientation as int, i, j)
                ==> cmds@.contains(piece_block(*p, i, j)),
{
    let blocks = p.for_each_block();
    let mut cmds: Vec<BlockCmd> = Vec::new();
    let mut k: usize = 0;
    while k < blocks.len()
        invariant
            p.wf(),
            k <= blocks@.len(),
            cmds@.len() == k,
            forall|n: int|
                0 <= n < blocks@.len() ==> (#[trigger] blocks@[n]).0 < 4 && blocks@[n].1 < 4
                    && shape_occupies(
                    p.shape as int,
                    p.orientation as int,
                    blocks@[n].0 as int,
                    blocks@[n].1 as int,
                ),
            forall|a: usize, b: usize|
                a < 4 && b < 4 && shape_occupies(
                    p.shape as int,
                    p.orientation as int,
                    a as int,
                    b as int,
                ) ==> #[trigger] blocks@.contains((a, b)),
            forall|n: int|
                0 <= n < k ==> #[trigger] cmds@[n] == piece_block(
                    *p,
                    blocks@[n].0 as int,
                    blocks@[n].1 as int,
                ),
        decreases blocks@.len() - k,
    {
        let (i, j) = blocks[k];
        let x: i64 = 1 + (CELL_SIZE as i64) * (p.column as i64 + j as i64);
        let y: i64 = 1 + (CELL_SIZE as i64) * (p.row as i64 + i as i64);
        cmds.push(BlockCmd { x, y, color: p.color, translucent: p.translucent });
        k += 1;
    }
    proof {
        assert forall|i: int, j: int|
            #[trigger] shape_occupies(p.shape as int, p.orientation as int, i, j)
                implies cmds@.contains(piece_block(*p, i, j)) by {
            assert(blocks@.contains((i as usize, j as usize)));
            let n = choose|n: int|
                0 <= n < blocks@.len() && blocks@[n] == (i as usize, j as usize);
            assert(cmds@[n] == piece_block(*p, i, j));
        }
        assert forall|k: int| 0 <= k < cmds@.len() implies is_piece_block(*p, #[trigger] cmds@[k]) by {
            let i = blocks@[k].0 as int;
            let j = blocks@[k].1 as int;
            assert(shape_occupies(p.shape as int, p.orientation as int, i, j) && cmds@[k]
                == piece_block(*p, i, j));
        }
    }
    cmds
}

} // verus!
