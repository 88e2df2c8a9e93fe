use vstd::prelude::*;

use crate::cell::Cell;
use crate::piece::{lemma_shape_top_row, shape_occupies, Piece};

verus! {

/// Canonical board height in rows.
pub const BOARD_HEIGHT: usize = 20;

/// Canonical board width in columns.
pub const BOARD_WIDTH: usize = 10;

/// The playing field: `height` rows of `width` cells, row 0 at the top,
/// row `height - 1` at the bottom.
#[derive(Debug)]
pub struct Board {
    pub width: usize,
    pub height: usize,
    pub cells: Vec<Vec<Cell>>,
}

impl Board {
    /// The board as a mathematical grid: a sequence of rows, each a sequence
    /// of cells.
    pub open spec fn grid(self) -> Seq<Seq<Cell>> {
        self.cells@.map_values(|r: Vec<Cell>| r@)
    }

    /// Every row has exactly `width` cells, there are exactly `height` rows,
    /// and both dimensions fit comfortably in the signed arithmetic used for
    /// piece coordinates.
    pub open spec fn wf(self) -> bool {
        &&& self.cells@.len() == self.height
        &&& forall|i: int| 0 <= i < self.height ==> self.grid()[i].len() == self.width
        &&& self.width <= 0x7fff_ffff
        &&& self.height <= 0x7fff_ffff
    }

    /// A fresh board of the given dimensions with every cell empty.
    pub fn new(width: usize, height: usize) -> (b: Board)
        requires
            width <= 0x7fff_ffff,
            height <= 0x7fff_ffff,
        ensures
            b.wf(),
            b.width == width,
            b.height == height,
            b.grid() == empty_grid(width as int, height as int),
    {
        let mut cells: Vec<Vec<Cell>> = Vec::new();
        let mut i: usize = 0;
        while i < height
            invariant
                i <= height,
                cells@.len() == i,
                forall|r: int| 0 <= r < i ==> cells@[r]@ == empty_row(width as int),
            decreases height - i,
        {
            cells.push(make_empty_row(width));
            i += 1;
        }
        let b = Board { width, height, cells };
        proof {
            assert(b.grid() =~~= empty_grid(width as int, height as int));
        }
        b
    }
}

/// One block of `p` collides with the board: box cell (i, j) is occupied,
/// its absolute row is on the visible board, and it is out of bounds
/// sideways or below, or overlaps a full cell. Blocks above the visible
/// board (absolute row < 0) are exempt from all checks, including the side
/// walls; see `Board::collides`.
pub open spec fn block_hits(
    g: Seq<Seq<Cell>>,
    width: int,
    height: int,
    p: Piece,
    i: int,
    j: int,
) -> bool {
    &&& shape_occupies(p.shape as int, p.orientation as int, i, j)
    &&& p.row + i >= 0
    &&& (p.column + j < 0 || p.column + j >= width || p.row + i >= height || g[p.row + i][p.column
        + j] is Full)
}

/// The piece collides: some block of its box collides.
pub open spec fn piece_hits(g: Seq<Seq<Cell>>, width: int, height: int, p: Piece) -> bool {
    exists|i: int, j: int| 0 <= i < 4 && 0 <= j < 4 && #[trigger] block_hits(g, width, height, p, i, j)
}

/// Board cell (r, c) lies under an occupied block of `p`.
pub open spec fn covered(p: Piece, r: int, c: int) -> bool {
    exists|i: int, j: int|
        #[trigger] shape_occupies(p.shape as int, p.orientation as int, i, j) && p.row + i == r
            && p.column + j == c
}

impl Board {
    /// Collision test. A block whose absolute row is negative is exempt from
    /// every check (a piece above the visible board cannot collide, not even
    /// with the side walls); any other occupied block collides when it is
    /// outside the left, right or bottom bound, or on a full cell. No side
    /// effects.
    pub fn collides(&self, piece: &Piece) -> (r: bool)
        requires
            self.wf(),
            piece.wf(),
        ensures
            r == piece_hits(self.grid(), self.width as int, self.height as int, *piece),
    {
        let ghost g = self.grid();
        let ghost w = self.width as int;
        let ghost h = self.height as int;
        let mut i: usize = 0;
        while i < 4
            invariant
                self.wf(),
                piece.wf(),
                g == self.grid(),
                w == self.width as int,
                h == self.height as int,
                i <= 4,
                forall|a: int, b: int|
                    0 <= a < 4 && 0 <= b < 4 && 4 * a + b < 4 * i ==> !(#[trigger] block_hits(
                        g,
                        w,
                        h,
                        *piece,
                        a,
                        b,
                    )),
            decreases 4 - i,
        {
            let mut j: usize = 0;
            while j < 4
                invariant
                    self.wf(),
                    piece.wf(),
                    g == self.grid(),
                    w == self.width as int,
                    h == self.height as int,
                    i < 4,
                    j <= 4,
                    forall|a: int, b: int|
                        0 <= a < 4 && 0 <= b < 4 && 4 * a + b < 4 * i + j ==> !(
                        #[trigger] block_hits(g, w, h, *piece, a, b)),
                decreases 4 - j,
            {
                if piece.has_block(i, j) {
                    let abs_row: i64 = piece.row as i64 + i as i64;
                    let abs_col: i64 = piece.column as i64 + j as i64;
                    if abs_row >= 0 {
                        if abs_col < 0 || abs_col >= self.width as i64 || abs_row
                            >= self.height as i64 {
                            proof {
                                assert(block_hits(g, w, h, *piece, i as int, j as int));
                            }
                            return true;
                        }
                        if self.cells[abs_row as usize][abs_col as usize].is_full() {
                            proof {
                                assert(block_hits(g, w, h, *piece, i as int, j as int));
                            }
                            return true;
                        }
                    }
                }
                j += 1;
            }
            i += 1;
        }
        false
    }

    /// Write the piece's blocks into the board as full cells of the piece's
    /// color. Blocks above the visible board are skipped. The caller must
    /// have established that the placement does not collide, which puts
    /// every on-board block in bounds.
    pub fn set_piece(&mut self, piece: &Piece)
        requires
            old(self).wf(),
            piece.wf(),
            !piece_hits(
                old(self).grid(),
                old(self).width as int,
                old(self).height as int,
                *piece,
            ),
        ensures
            final(self).wf(),
            final(self).width == old(self).width,
            final(self).height == old(self).height,
            forall|r: int, c: int|
                0 <= r < old(self).height && 0 <= c < old(self).width
                    ==> final(self).grid()[r][c] == (if covered(*piece, r, c) {
                    Cell::Full(piece.color)
                } else {
                    old(self).grid()[r][c]
                }),
    {
        let ghost w = self.width as int;
        let ghost h = self.height as int;
        let ghost g0 = self.grid();
        let mut i: usize = 0;
        while i < 4
            invariant
                self.wf(),
                piece.wf(),
                self.width as int == w,
                self.height as int == h,
                !piece_hits(g0, w, h, *piece),
                i <= 4,
                forall|r: int, c: int|
                    0 <= r < h && 0 <= c < w ==> #[trigger] self.grid()[r][c] == (if covered_prefix(
                        *piece,
                        r,
                        c,
                        4 * i,
                    ) {
                        Cell::Full(piece.color)
                    } else {
                        g0[r][c]
                    }),
            decreases 4 - i,
        {
            let mut j: usize = 0;
            while j < 4
                invariant
                    self.wf(),
                    piece.wf(),
                    self.width as int == w,
                    self.height as int == h,
                    !piece_hits(g0, w, h, *piece),
                    i < 4,
                    j <= 4,
                    forall|r: int, c: int|
                        0 <= r < h && 0 <= c < w ==> #[trigger] self.grid()[r][c] == (
                        if covered_prefix(*piece, r, c, 4 * i + j) {
                            Cell::Full(piece.color)
                        } else {
                            g0[r][c]
                        }),
                decreases 4 - j,
            {
                let ghost n = 4 * i + j;
                proof {
                    assert(n / 4 == i as int && n % 4 == j as int);
                }
                if piece.has_block(i, j) {
                    let abs_row: i64 = piece.row as i64 + i as i64;
                    let abs_col: i64 = piece.column as i64 + j as i64;
                    if abs_row >= 0 {
                        proof {
                            assert(!block_hits(g0, w, h, *piece, i as int, j as int));
                            assert(0 <= piece.column + j < w && piece.row + i < h);
                        }
                        let r = abs_row as usize;
                        let c = abs_col as usize;
                        let ghost gprev = self.grid();
                        proof {
                            assert(gprev[r as int] == self.cells@[r as int]@);
                            assert(gprev[r as int].len() == w);
                        }
                        let mut row_copy = copy_row(&self.cells[r]);
                        row_copy.set(c, Cell::Full(piece.color));
                        self.cells.set(r, row_copy);
                        proof {
                            assert(row_copy@ == gprev[r as int].update(
                                c as int,
                                Cell::Full(piece.color),
                            ));
                            assert forall|rr: int| 0 <= rr < h implies #[trigger] self.grid()[rr]
                                == (if rr == r as int {
                                gprev[r as int].update(c as int, Cell::Full(piece.color))
                            } else {
                                gprev[rr]
                            }) by {
                                assert(self.grid()[rr] == self.cells@[rr]@);
                            }
                            lemma_covered_prefix_step(*piece, n, r as int, c as int, w, h);
                            assert forall|rr: int, cc: int| 0 <= rr < h && 0 <= cc < w implies
                                #[trigger] self.grid()[rr][cc] == (if covered_prefix(
                                *piece,
                                rr,
                                cc,
                                n + 1,
                            ) {
                                Cell::Full(piece.color)
                            } else {
                                g0[rr][cc]
                            }) by {
                                if rr == r as int && cc == c as int {
                                    assert(self.grid()[rr][cc] == Cell::Full(piece.color));
                                } else {
                                    assert(self.grid()[rr][cc] == gprev[rr][cc]);
                                    assert(covered_prefix(*piece, rr, cc, n + 1) <==> covered_prefix(
                                        *piece,
                                        rr,
                                        cc,
                                        n,
                                    ));
                                }
                            }
                        }
                    } else {
                        proof {
                            lemma_covered_prefix_same(*piece, n);
                        }
                    }
                } else {
                    proof {
                        lemma_covered_prefix_same(*piece, n);
                    }
                }
                j += 1;
            }
            i += 1;
        }
        proof {
            assert forall|r: int, c: int| true implies (covered_prefix(*piece, r, c, 16) <==> covered(
                *piece,
                r,
                c,
            )) by {
            }
        }
    }

    /// The line-clear pass. Scans from the bottom row upward with a cursor;
    /// a full row is consumed, a non-full row survives and the cursor moves
    /// up; after each step the row at `cursor - consumed` is copied down to
    /// the cursor, compacting survivors toward the bottom. The scan stops
    /// when the cursor meets the consumed count, so row 0 is never examined;
    /// the final sweep then erases every row from the top through the
    /// cursor. Returns the number of rows consumed: the number of full rows
    /// among rows 1..height.
    pub fn clear_rows(&mut self) -> (cleared: i32)
        requires
            old(self).wf(),
        ensures
            final(self).wf(),
            final(self).width == old(self).width,
            final(self).height == old(self).height,
            cleared as int == cleared_count(old(self).grid()),
            final(self).grid() == cleared_grid(old(self).grid(), old(self).width as int),
    {
        let ghost o = self.grid();
        let ghost w = self.width as int;
        let ghost h = self.height as int;
        if self.height == 0 {
            proof {
                assert(self.grid() =~~= cleared_grid(o, w));
            }
            return 0;
        }
        let mut cleared: usize = 0;
        let mut row: usize = self.height - 1;
        proof {
            assert(o.subrange(h, h) =~= Seq::<Seq<Cell>>::empty());
            assert(self.grid().subrange(row + 1, h) =~= Seq::<Seq<Cell>>::empty());
        }
        while cleared < row
            invariant
                self.wf(),
                self.width as int == w,
                self.height as int == h,
                o.len() == h,
                forall|i: int| 0 <= i < h ==> o[i].len() == w,
                cleared <= row < h,
                forall|i: int| 0 <= i <= row - cleared ==> #[trigger] self.grid()[i] == o[i],
                self.grid()[row as int] == o[row - cleared],
                self.grid().subrange(row + 1, h) == surviving(o.subrange(row - cleared + 1, h)),
                cleared as int == full_count(o.subrange(row - cleared + 1, h)),
            decreases row - cleared,
        {
            let ghost e = row - cleared;
            let ghost suffix = o.subrange(e, h);
            proof {
                assert(suffix[0] == o[e]);
                assert(suffix.drop_first() =~= o.subrange(e + 1, h));
            }
            let full = row_is_full(&self.cells[row]);
            proof {
                assert(self.cells@[row as int]@ == o[e]);
                assert(full == row_full(suffix[0]));
            }
            if full {
                cleared += 1;
                proof {
                    assert(full_count(suffix) == 1 + full_count(o.subrange(e + 1, h)));
                    assert(surviving(suffix) == surviving(o.subrange(e + 1, h)));
                }
            } else {
                row -= 1;
                proof {
                    assert(full_count(suffix) == full_count(o.subrange(e + 1, h)));
                    assert(surviving(suffix) == seq![o[e]] + surviving(o.subrange(e + 1, h)));
                    assert(self.grid().subrange(row + 1, h) =~= seq![o[e]] + self.grid().subrange(
                        row + 2,
                        h,
                    ));
                }
            }
            let ghost gprev = self.grid();
            if cleared > 0 && cleared <= row {
                let src = copy_row(&self.cells[row - cleared]);
                proof {
                    assert(src@ == gprev[row - cleared]);
                    assert(gprev[row - cleared] == o[row - cleared]);
                    assert(src@.len() == w);
                }
                self.cells.set(row, src);
                proof {
                    assert forall|i: int| 0 <= i < h implies #[trigger] self.grid()[i] == (if i
                        == row as int {
                        o[row - cleared]
                    } else {
                        gprev[i]
                    }) by {
                        assert(self.grid()[i] == self.cells@[i]@);
                    }
                    assert(self.grid().subrange(row + 1, h) =~= gprev.subrange(row + 1, h));
                }
            }
            proof {
                assert(self.grid()[row as int] == o[row - cleared]);
            }
        }
        let ghost gmid = self.grid();
        let ghost k = cleared as int;
        proof {
            assert(row - cleared == 0);
            assert(o.subrange(1, h) =~= o.drop_first());
            assert(k == cleared_count(o));
            assert(gmid.subrange(k + 1, h) == surviving(o.drop_first()));
        }
        let mut idx: usize = 0;
        while idx <= row
            invariant
                self.wf(),
                self.width as int == w,
                self.height as int == h,
                row as int == k,
                0 <= k < h,
                idx <= row + 1,
                gmid.len() == h,
                forall|i: int| 0 <= i < idx ==> #[trigger] self.grid()[i] == empty_row(w),
                forall|i: int| idx <= i < h ==> #[trigger] self.grid()[i] == gmid[i],
            decreases row + 1 - idx,
        {
            let er = make_empty_row(self.width);
            let ghost gz = self.grid();
            self.cells.set(idx, er);
            proof {
                assert forall|i: int| 0 <= i < h implies #[trigger] self.grid()[i] == (if i
                    == idx as int {
                    empty_row(w)
                } else {
                    gz[i]
                }) by {
                    assert(self.grid()[i] == self.cells@[i]@);
                }
            }
            idx += 1;
        }
        proof {
            lemma_surviving_len(o.drop_first());
            assert(self.grid() =~~= cleared_grid(o, w));
        }
        cleared as i32
    }
}

/// A row counts as full when every one of its cells is full. (An empty
/// sequence of cells is vacuously full; a board of width 0 is degenerate.)
pub open spec fn row_full(row: Seq<Cell>) -> bool {
    forall|j: int| 0 <= j < row.len() ==> #[trigger] row[j] is Full
}

/// Number of full rows in `rows`.
pub open spec fn full_count(rows: Seq<Seq<Cell>>) -> int
    decreases rows.len(),
{
    if rows.len() == 0 {
        0
    } else {
        (if row_full(rows[0]) {
            1int
        } else {
            0int
        }) + full_count(rows.drop_first())
    }
}

/// The rows of `rows` that are not full, in their original order.
pub open spec fn surviving(rows: Seq<Seq<Cell>>) -> Seq<Seq<Cell>>
    decreases rows.len(),
{
    if rows.len() == 0 {
        Seq::empty()
    } else if row_full(rows[0]) {
        surviving(rows.drop_first())
    } else {
        seq![rows[0]] + surviving(rows.drop_first())
    }
}

/// What the line-clear pass returns: the number of full rows among rows
/// 1..height. Row 0 stands outside the scan, which walks row indices
/// height-1 down to 1; see `Board::clear_rows`.
pub open spec fn cleared_count(g: Seq<Seq<Cell>>) -> int {
    if g.len() == 0 {
        0
    } else {
        full_count(g.drop_first())
    }
}

/// The board after the line-clear pass: the surviving rows among rows
/// 1..height at the bottom, in order, and empty rows above them. Note that
/// `cleared_count(g) + 1` rows at the top end up empty: the scan never
/// reaches row 0, and the final sweep erases it along with the consumed
/// rows.
pub open spec fn cleared_grid(g: Seq<Seq<Cell>>, width: int) -> Seq<Seq<Cell>> {
    if g.len() == 0 {
        g
    } else {
        empty_grid(width, cleared_count(g) + 1) + surviving(g.drop_first())
    }
}

/// No row that `surviving` keeps is full.
proof fn lemma_surviving_not_full(rows: Seq<Seq<Cell>>)
    ensures
        forall|i: int| 0 <= i < surviving(rows).len() ==> !row_full(#[trigger] surviving(rows)[i]),
    decreases rows.len(),
{
    if rows.len() > 0 {
        lemma_surviving_not_full(rows.drop_first());
        if !row_full(rows[0]) {
            assert forall|i: int| 0 <= i < surviving(rows).len() implies !row_full(
                #[trigger] surviving(rows)[i],
            ) by {
                if i > 0 {
                    assert(surviving(rows)[i] == surviving(rows.drop_first())[i - 1]);
                }
            }
        }
    }
}

/// A sequence without a full row has `full_count` 0 and survives unchanged.
proof fn lemma_no_full_rows(rows: Seq<Seq<Cell>>)
    requires
        forall|i: int| 0 <= i < rows.len() ==> !row_full(#[trigger] rows[i]),
    ensures
        full_count(rows) == 0,
        surviving(rows) == rows,
    decreases rows.len(),
{
    if rows.len() > 0 {
        assert(forall|i: int|
            0 <= i < rows.drop_first().len() ==> rows.drop_first()[i] == rows[i + 1]);
        lemma_no_full_rows(rows.drop_first());
        assert(surviving(rows) =~= rows);
    }
}

/// `full_count` adds up over a split of the sequence.
proof fn lemma_full_count_split(rows: Seq<Seq<Cell>>, m: int)
    requires
        0 <= m <= rows.len(),
    ensures
        full_count(rows) == full_count(rows.subrange(0, m)) + full_count(
            rows.subrange(m, rows.len() as int),
        ),
    decreases m,
{
    if m == 0 {
        assert(rows.subrange(0, 0) =~= Seq::<Seq<Cell>>::empty());
        assert(rows.subrange(0, rows.len() as int) =~= rows);
    } else {
        let rest = rows.drop_first();
        assert(rows.subrange(0, m)[0] == rows[0]);
        assert(rows.subrange(0, m).drop_first() =~= rest.subrange(0, m - 1));
        assert(rows.subrange(m, rows.len() as int) =~= rest.subrange(m - 1, rest.len() as int));
        lemma_full_count_split(rest, m - 1);
        assert(full_count(rows) == (if row_full(rows[0]) {
            1int
        } else {
            0int
        }) + full_count(rest));
    }
}

/// Where a non-full row lands among the survivors: at its old index minus
/// the number of full rows that preceded it.
proof fn lemma_surviving_index(s: Seq<Seq<Cell>>, m: int)
    requires
        0 <= m < s.len(),
        !row_full(s[m]),
    ensures
        0 <= m - full_count(s.subrange(0, m)) < surviving(s).len(),
        surviving(s)[m - full_count(s.subrange(0, m))] == s[m],
    decreases m,
{
    lemma_surviving_len(s);
    lemma_full_count_split(s, m);
    if m == 0 {
        assert(s.subrange(0, 0) =~= Seq::<Seq<Cell>>::empty());
        assert(surviving(s) == seq![s[0]] + surviving(s.drop_first()));
        assert(surviving(s)[0] == s[0]);
    } else {
        let rest = s.drop_first();
        assert(rest[m - 1] == s[m]);
        lemma_surviving_index(rest, m - 1);
        assert(s.subrange(0, m)[0] == s[0]);
        assert(s.subrange(0, m).drop_first() =~= rest.subrange(0, m - 1));
        let posr = m - 1 - full_count(rest.subrange(0, m - 1));
        if row_full(s[0]) {
            assert(surviving(s) == surviving(rest));
            assert(full_count(s.subrange(0, m)) == 1 + full_count(rest.subrange(0, m - 1)));
            assert(surviving(s)[m - full_count(s.subrange(0, m))] == surviving(rest)[posr]);
        } else {
            assert(surviving(s) == seq![s[0]] + surviving(rest));
            assert(full_count(s.subrange(0, m)) == full_count(rest.subrange(0, m - 1)));
            assert(surviving(s)[m - full_count(s.subrange(0, m))] == surviving(rest)[posr]);
        }
    }
}

/// Law: the line-clear pass is idempotent. On a board it has just compacted
/// (any board of positive width), a second immediate pass finds no full row,
/// clears nothing, and leaves the board unchanged.
pub proof fn lemma_clear_rows_idempotent(g: Seq<Seq<Cell>>, width: int)
    requires
        width > 0,
    ensures
        cleared_count(cleared_grid(g, width)) == 0,
        cleared_grid(cleared_grid(g, width), width) == cleared_grid(g, width),
{
    if g.len() == 0 {
        return ;
    }
    let k = cleared_count(g);
    let cg = cleared_grid(g, width);
    lemma_surviving_len(g.drop_first());
    assert(cg.len() == g.len());
    lemma_surviving_not_full(g.drop_first());
    assert forall|i: int| 0 <= i < cg.drop_first().len() implies !row_full(
        #[trigger] cg.drop_first()[i],
    ) by {
        assert(cg.drop_first()[i] == cg[i + 1]);
        if i + 1 <= k {
            assert(cg[i + 1] == empty_row(width));
            assert(empty_row(width)[0] is Empty);
        } else {
            assert(cg[i + 1] == surviving(g.drop_first())[i - k]);
        }
    }
    lemma_no_full_rows(cg.drop_first());
    assert(cleared_count(cg) == 0);
    assert(cleared_grid(cg, width) =~= cg) by {
        assert(cleared_grid(cg, width) == empty_grid(width, 1) + cg.drop_first());
        assert(cg[0] == empty_row(width));
    }
}

/// Law: clearing `k` full rows keeps the surviving rows in their original
/// relative order, stacked at the bottom, and leaves every row above them
/// empty — `k + 1` rows in all, since the row at the very top is erased
/// along with the `k` consumed rows. Each surviving row lands exactly as
/// many rows lower as there were full rows below it.
pub proof fn lemma_clear_rows_order(g: Seq<Seq<Cell>>, width: int, i: int)
    requires
        1 <= i < g.len(),
        !row_full(g[i]),
    ensures
        forall|n: int|
            0 <= n <= cleared_count(g) ==> #[trigger] cleared_grid(g, width)[n] == empty_row(
                width,
            ),
        i + full_count(g.subrange(i + 1, g.len() as int)) < g.len(),
        cleared_grid(g, width)[i + full_count(g.subrange(i + 1, g.len() as int))] == g[i],
{
    let h = g.len() as int;
    let s = g.drop_first();
    let k = cleared_count(g);
    lemma_surviving_len(s);
    assert forall|n: int| 0 <= n <= k implies #[trigger] cleared_grid(g, width)[n] == empty_row(
        width,
    ) by {
        assert(cleared_grid(g, width)[n] == empty_grid(width, k + 1)[n]);
    }
    assert(s[i - 1] == g[i]);
    lemma_surviving_index(s, i - 1);
    lemma_full_count_split(s, i - 1);
    assert(s.subrange(i - 1, s.len() as int)[0] == s[i - 1]);
    assert(s.subrange(i - 1, s.len() as int).drop_first() =~= s.subrange(i, s.len() as int));
    assert(s.subrange(i, s.len() as int) =~= g.subrange(i + 1, h));
    let f = full_count(g.subrange(i + 1, h));
    assert(full_count(s.subrange(i - 1, s.len() as int)) == f);
    assert(k == full_count(s.subrange(0, i - 1)) + f);
    let pos = (i - 1) - full_count(s.subrange(0, i - 1));
    assert(cleared_grid(g, width)[k + 1 + pos] == surviving(s)[pos]);
    assert(k + 1 + pos == i + f);
}

/// Law: a piece whose every block lies on the visible board, inside the
/// bounds and on empty cells, does not collide; and the same piece moved a
/// full board width further right does collide.
pub proof fn lemma_inbounds_piece_free(g: Seq<Seq<Cell>>, width: int, height: int, p: Piece)
    requires
        p.wf(),
        p.column + width <= i32::MAX,
        forall|i: int, j: int|
            #[trigger] shape_occupies(p.shape as int, p.orientation as int, i, j) ==> 0 <= p.row + i
                < height && 0 <= p.column + j < width && !(g[p.row + i][p.column + j] is Full),
    ensures
        !piece_hits(g, width, height, p),
        piece_hits(g, width, height, Piece { column: (p.column + width) as i32, ..p }),
{
    assert forall|i: int, j: int|
        0 <= i < 4 && 0 <= j < 4 implies !(#[trigger] block_hits(g, width, height, p, i, j)) by {
        if shape_occupies(p.shape as int, p.orientation as int, i, j) {
            assert(0 <= p.row + i < height && 0 <= p.column + j < width);
        }
    }
    lemma_shape_top_row(p.shape as int, p.orientation as int);
    let j = choose|j: int| 0 <= j < 4 && shape_occupies(p.shape as int, p.orientation as int, 0, j);
    let q = Piece { column: (p.column + width) as i32, ..p };
    assert(shape_occupies(q.shape as int, q.orientation as int, 0, j));
    assert(q.row + 0 >= 0);
    assert(q.column + j >= width);
    assert(block_hits(g, width, height, q, 0, j));
}

/// `full_count` is between 0 and the number of rows, and `surviving` keeps
/// exactly the rows that are not counted.
pub proof fn lemma_surviving_len(rows: Seq<Seq<Cell>>)
    ensures
        0 <= full_count(rows) <= rows.len(),
        surviving(rows).len() == rows.len() - full_count(rows),
    decreases rows.len(),
{
    if rows.len() > 0 {
        lemma_surviving_len(rows.drop_first());
    }
}

/// True when every cell of the row is full.
fn row_is_full(v: &Vec<Cell>) -> (b: bool)
    ensures
        b == row_full(v@),
{
    let mut j: usize = 0;
    while j < v.len()
        invariant
            j <= v@.len(),
            forall|k: int| 0 <= k < j ==> #[trigger] v@[k] is Full,
        decreases v@.len() - j,
    {
        if !v[j].is_full() {
            return false;
        }
        j += 1;
    }
    true
}

/// Like `covered`, but only counting blocks whose row-major box position
/// `4 * i + j` is below `n`; `covered_prefix(p, r, c, 16)` is `covered`.
pub open spec fn covered_prefix(p: Piece, r: int, c: int, n: int) -> bool {
    exists|i: int, j: int|
        #[trigger] shape_occupies(p.shape as int, p.orientation as int, i, j) && 4 * i + j < n
            && p.row + i == r && p.column + j == c
}

/// When block (i, j) with box position `n = 4 * i + j` lands on board cell
/// (r, c), extending the scanned prefix from `n` to `n + 1` covers exactly
/// the one extra cell (r, c).
proof fn lemma_covered_prefix_step(p: Piece, n: int, r: int, c: int, w: int, h: int)
    requires
        0 <= n < 16,
        shape_occupies(p.shape as int, p.orientation as int, n / 4, n % 4),
        p.row + n / 4 == r,
        p.column + n % 4 == c,
    ensures
        covered_prefix(p, r, c, n + 1),
        forall|rr: int, cc: int|
            !(rr == r && cc == c) ==> (covered_prefix(p, rr, cc, n + 1) <==> covered_prefix(
                p,
                rr,
                cc,
                n,
            )),
{
    let i = n / 4;
    let j = n % 4;
    assert(4 * i + j == n);
    assert(covered_prefix(p, r, c, n + 1));
    assert forall|rr: int, cc: int|
        !(rr == r && cc == c) && covered_prefix(p, rr, cc, n + 1) implies covered_prefix(
        p,
        rr,
        cc,
        n,
    ) by {
        let (a, b): (int, int) = choose|a: int, b: int|
            #[trigger] shape_occupies(p.shape as int, p.orientation as int, a, b) && 4 * a + b < n
                + 1 && p.row + a == rr && p.column + b == cc;
        if 4 * a + b == n {
            assert(a == i && b == j);
            assert(rr == r && cc == c);
        }
    }
}

/// A box position that holds no block (or sits above the board) adds no
/// covered cell.
proof fn lemma_covered_prefix_same(p: Piece, n: int)
    requires
        0 <= n < 16,
        !shape_occupies(p.shape as int, p.orientation as int, n / 4, n % 4) || p.row + n / 4 < 0,
    ensures
        forall|rr: int, cc: int|
            0 <= rr ==> (covered_prefix(p, rr, cc, n + 1) <==> covered_prefix(p, rr, cc, n)),
{
    let i = n / 4;
    let j = n % 4;
    assert(4 * i + j == n);
    assert forall|rr: int, cc: int|
        0 <= rr && covered_prefix(p, rr, cc, n + 1) implies covered_prefix(p, rr, cc, n) by {
        let (a, b): (int, int) = choose|a: int, b: int|
            #[trigger] shape_occupies(p.shape as int, p.orientation as int, a, b) && 4 * a + b < n
                + 1 && p.row + a == rr && p.column + b == cc;
        if 4 * a + b == n {
            assert(a == i && b == j);
        }
    }
}

/// A fresh copy of a row of cells.
fn copy_row(v: &Vec<Cell>) -> (r: Vec<Cell>)
    ensures
        r@ == v@,
{
    let mut r: Vec<Cell> = Vec::new();
    let mut j: usize = 0;
    while j < v.len()
        invariant
            j <= v@.len(),
            r@.len() == j,
            forall|k: int| 0 <= k < j ==> r@[k] == v@[k],
        decreases v@.len() - j,
    {
        r.push(v[j]);
        j += 1;
    }
    proof {
        assert(r@ =~= v@);
    }
    r
}

/// A row of `width` empty cells.
pub open spec fn empty_row(width: int) -> Seq<Cell> {
    Seq::new(width as nat, |j: int| Cell::Empty)
}

/// A grid of `height` empty rows.
pub open spec fn empty_grid(width: int, height: int) -> Seq<Seq<Cell>> {
    Seq::new(height as nat, |i: int| empty_row(width))
}

/// Build a row of `width` empty cells.
fn make_empty_row(width: usize) -> (r: Vec<Cell>)
    ensures
        r@ == empty_row(width as int),
{
    let mut r: Vec<Cell> = Vec::new();
    let mut j: usize = 0;
    while j < width
        invariant
            j <= width,
            r@.len() == j,
            forall|k: int| 0 <= k < j ==> r@[k] == Cell::Empty,
        decreases width - j,
    {
        r.push(Cell::Empty);
        j += 1;
    }
    proof {
        assert(r@ =~= empty_row(width as int));
    }
    r
}

} // verus!
