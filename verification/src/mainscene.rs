use vstd::prelude::*;

use crate::board::{
    cleared_count, cleared_grid, covered, empty_grid, piece_hits, Board, BOARD_HEIGHT, BOARD_WIDTH,
};
use crate::cell::Cell;
use crate::input::InputState;
use crate::pausescene::PauseScene;
use crate::piece::{
    all_kinds, generate_pieces, is_fresh_piece, lemma_shape_top_row, make_ghost, Piece,
};
use crate::state::{State, Transition};

verus! {

/// Milliseconds between ordinary gravity steps.
pub const MOVE_WAIT_MS: u64 = 1000;

/// Milliseconds between gravity steps while the soft-drop key is held.
pub const FAST_MOVE_WAIT_MS: u64 = 50;

/// Milliseconds a held key waits before it repeats.
pub const KEY_WAIT_MS: u64 = 200;

/// Addition on millisecond counters, pinned at the top of the range.
pub open spec fn sat_add(a: u64, b: u64) -> u64 {
    if a + b <= u64::MAX {
        (a + b) as u64
    } else {
        u64::MAX
    }
}

/// What one lock-in step reports: the game goes on, or it is over with the
/// final score.
#[derive(Clone, Copy, Debug, PartialEq, Eq, Structural)]
pub enum StepResult {
    Continue,
    GameOver(u64),
}

/// The playing state: board, active piece, pending bag, derived ghost
/// projection, the two accumulated-duration timers, and the score.
pub struct MainScene {
    pub board: Board,
    pub piece: Piece,
    pub piece_bag: Vec<Piece>,
    pub ghost_piece: Piece,
    /// Milliseconds accumulated toward the next gravity step.
    pub move_dt: u64,
    /// Milliseconds accumulated toward the next key repeat.
    pub key_dt: u64,
    pub score: u64,
    /// Terminal flag: once set, no further update mutates the state.
    pub game_over: bool,
    /// Set while a pause overlay suspends this scene.
    pub paused: bool,
}

/// A game state as `MainScene::new` builds it: empty canonical board, score
/// 0, timers at their start values, a spawned piece of some kind with the
/// remaining six kinds in the bag — together one full 7-bag.
pub open spec fn is_fresh_game(s: MainScene) -> bool {
    &&& s.wf()
    &&& !s.game_over
    &&& !s.paused
    &&& s.score == 0
    &&& s.move_dt == 0
    &&& s.key_dt == KEY_WAIT_MS
    &&& s.board.grid() == empty_grid(BOARD_WIDTH as int, BOARD_HEIGHT as int)
    &&& s.piece.row == -2
    &&& s.piece.column == 3
    &&& s.piece.orientation == 0
    &&& s.piece.color == s.piece.shape
    &&& !s.piece.translucent
    &&& s.ghost_piece == (Piece { translucent: true, ..s.piece })
    &&& s.piece_bag@.len() == 6
    &&& forall|k: int| 0 <= k < 6 ==> is_fresh_piece(#[trigger] s.piece_bag@[k])
    &&& s.piece_bag@.map_values(|p: Piece| p.shape).push(s.piece.shape).to_multiset()
        == all_kinds().to_multiset()
}

/// `p` with its anchor on row `r`.
pub open spec fn with_row(p: Piece, r: int) -> Piece {
    Piece { row: r as i32, ..p }
}

/// `q` is where `p` comes to rest when projected straight down: every row
/// from `p`'s own down to `q`'s is collision-free and the row below `q` is
/// not. When `p` already collides where it stands, `q` sits one row above
/// `p` (the projection backs off without ever finding a free row).
pub open spec fn is_drop_target(
    g: Seq<Seq<Cell>>,
    width: int,
    height: int,
    p: Piece,
    q: Piece,
) -> bool {
    &&& q == with_row(p, q.row as int)
    &&& q.row >= p.row - 1
    &&& forall|r: int| p.row <= r <= q.row ==> !piece_hits(g, width, height, with_row(p, r))
    &&& piece_hits(g, width, height, with_row(p, q.row + 1))
}

/// A non-colliding piece stands above the bottom of the board: its top box
/// row always holds a block, and that block would otherwise sit at or below
/// the floor.
pub proof fn lemma_free_piece_row(g: Seq<Seq<Cell>>, width: int, height: int, p: Piece)
    requires
        p.wf(),
        0 <= height,
        !piece_hits(g, width, height, p),
    ensures
        p.row < height,
{
    if p.row >= height {
        lemma_shape_top_row(p.shape as int, p.orientation as int);
        let j = choose|j: int|
            0 <= j < 4 && crate::piece::shape_occupies(p.shape as int, p.orientation as int, 0, j);
        assert(crate::board::block_hits(g, width, height, p, 0, j));
    }
}

impl MainScene {
    /// The structural part of the engine invariant: the canonical 10x20
    /// board, valid pieces, and a never-empty bag of valid pieces.
    pub open spec fn wf_base(self) -> bool {
        &&& self.board.wf()
        &&& self.board.width == BOARD_WIDTH
        &&& self.board.height == BOARD_HEIGHT
        &&& self.piece.wf()
        &&& self.ghost_piece.wf()
        &&& self.piece_bag@.len() >= 1
        &&& forall|k: int| 0 <= k < self.piece_bag@.len() ==> (#[trigger] self.piece_bag@[k]).wf()
    }

    /// The engine invariant: the structural part, the active piece within
    /// its reachable rows, and — while the game runs — a colliding active
    /// piece only in the spawn rows above the board.
    pub open spec fn wf(self) -> bool {
        &&& self.wf_base()
        &&& -4 <= self.piece.row < BOARD_HEIGHT
        &&& (!self.game_over ==> -3 <= self.piece.row)
        &&& (!self.game_over && piece_hits(
            self.board.grid(),
            BOARD_WIDTH as int,
            BOARD_HEIGHT as int,
            self.piece,
        ) ==> self.piece.row <= -1)
    }

    /// A fresh game: empty 10x20 board, a shuffled 7-bag with one piece
    /// already drawn and spawned, score 0, gravity timer empty and the key
    /// timer primed so the first frame already accepts input.
    pub fn new() -> (s: MainScene)
        ensures
            s.wf(),
            is_fresh_game(s),
    {
        let mut piece_bag = generate_pieces();
        let ghost bag7 = piece_bag@;
        let next = piece_bag.pop().unwrap();
        let piece = next.prepare();
        let board = Board::new(BOARD_WIDTH, BOARD_HEIGHT);
        proof {
            assert(bag7.map_values(|p: Piece| p.shape) =~= piece_bag@.map_values(
                |p: Piece| p.shape,
            ).push(piece.shape));
        }
        MainScene {
            board,
            piece,
            piece_bag,
            ghost_piece: make_ghost(&piece),
            move_dt: 0,
            key_dt: KEY_WAIT_MS,
            score: 0,
            game_over: false,
            paused: false,
        }
    }

    /// Project a piece straight down: step one row at a time while the
    /// position is collision-free, then back off one row.
    pub fn drop_piece(&self, p: Piece) -> (q: Piece)
        requires
            self.board.wf(),
            p.wf(),
            p.row > i32::MIN,
            p.row <= self.board.height,
        ensures
            is_drop_target(
                self.board.grid(),
                self.board.width as int,
                self.board.height as int,
                p,
                q,
            ),
            q.wf(),
            q.row < self.board.height,
    {
        let ghost g = self.board.grid();
        let ghost w = self.board.width as int;
        let ghost h = self.board.height as int;
        let mut q = p;
        let mut hit = self.board.collides(&q);
        proof {
            if !hit {
                lemma_free_piece_row(g, w, h, q);
            }
        }
        while !hit
            invariant
                self.board.wf(),
                g == self.board.grid(),
                w == self.board.width as int,
                h == self.board.height as int,
                p.wf(),
                p.row <= h,
                q == with_row(p, q.row as int),
                q.row >= p.row,
                forall|r: int| p.row <= r < q.row ==> !piece_hits(g, w, h, with_row(p, r)),
                hit == piece_hits(g, w, h, q),
                !hit ==> q.row < h,
            decreases h - q.row,
        {
            q.row = q.row + 1;
            hit = self.board.collides(&q);
            proof {
                if !hit {
                    lemma_free_piece_row(g, w, h, q);
                }
            }
        }
        let ghost stop = q.row as int;
        q.row = q.row - 1;
        proof {
            assert(q == with_row(p, q.row as int));
            assert(piece_hits(g, w, h, with_row(p, stop)));
            if q.row >= p.row {
                assert(!piece_hits(g, w, h, with_row(p, q.row as int)));
                lemma_free_piece_row(g, w, h, q);
            }
        }
        q
    }

    /// Rotation resolution: try the piece rotated one quarter-turn in place,
    /// then kicked one, two and three columns to the left; commit the first
    /// candidate that does not collide, otherwise leave the piece entirely
    /// unchanged. A kick that would push the column below the machine's
    /// integer range counts as blocked.
    pub fn rotate_piece(&mut self)
        requires
            old(self).wf(),
        ensures
            final(self).piece == kick_target(
                old(self).board.grid(),
                BOARD_WIDTH as int,
                BOARD_HEIGHT as int,
                old(self).piece,
            ),
            *final(self) == (MainScene { piece: final(self).piece, ..*old(self) }),
            final(self).wf(),
    {
        let ghost g = self.board.grid();
        let ghost w = BOARD_WIDTH as int;
        let ghost h = BOARD_HEIGHT as int;
        let ghost p0 = self.piece;
        let ghost s0 = *self;
        let mut new_piece = self.piece;
        new_piece.rotate(1);
        proof {
            assert(new_piece == rotated_once(p0));
            assert(new_piece == kick_candidate(p0, 0));
        }
        let mut t: usize = 0;
        while t < 4
            invariant
                *self == s0,
                s0 == *old(self),
                s0.wf(),
                g == self.board.grid(),
                w == BOARD_WIDTH as int,
                h == BOARD_HEIGHT as int,
                p0 == self.piece,
                t <= 4,
                p0.column - t as int >= i32::MIN,
                new_piece == kick_candidate(p0, t as int),
                new_piece.wf(),
                forall|u: int| 0 <= u < t ==> !candidate_free(g, w, h, p0, u),
            decreases 4 - t,
        {
            if !self.board.collides(&new_piece) {
                proof {
                    assert(candidate_free(g, w, h, p0, t as int));
                }
                self.piece = new_piece;
                return ;
            }
            if new_piece.column == i32::MIN {
                proof {
                    assert forall|u: int| 0 <= u < 4 implies !candidate_free(g, w, h, p0, u) by {
                        if u > t as int {
                            assert(p0.column - u < i32::MIN);
                        } else if u == t as int {
                            assert(piece_hits(g, w, h, kick_candidate(p0, u)));
                        }
                    }
                }
                return ;
            }
            new_piece = new_piece.shift(-1);
            t += 1;
        }
        proof {
            assert(kick_target(g, w, h, p0) == p0);
        }
    }

    /// Recompute the ghost projection: a translucent copy of the active
    /// piece, projected straight down as a hard drop would move it. The
    /// active piece itself is untouched.
    pub fn update_ghost(&mut self)
        requires
            old(self).wf(),
        ensures
            *final(self) == (MainScene { ghost_piece: final(self).ghost_piece, ..*old(self) }),
            is_drop_target(
                old(self).board.grid(),
                BOARD_WIDTH as int,
                BOARD_HEIGHT as int,
                (Piece { translucent: true, ..old(self).piece }),
                final(self).ghost_piece,
            ),
            final(self).wf(),
    {
        let shadow = make_ghost(&self.piece);
        let dropped = self.drop_piece(shadow);
        self.ghost_piece = dropped;
    }

    /// Lock the active piece in. With the piece still above the board the
    /// game is over and nothing else changes; otherwise the piece's blocks
    /// are written into the grid, full rows are cleared, the squared clear
    /// count is added to the score (pinned at the top of the range), and the
    /// next piece is drawn from the bag, which is refilled with a fresh
    /// shuffled 7-bag when it empties.
    pub fn set_piece(&mut self) -> (r: StepResult)
        requires
            old(self).wf_base(),
            !old(self).game_over,
            -4 <= old(self).piece.row < BOARD_HEIGHT,
            old(self).piece.row >= 0 ==> !piece_hits(
                old(self).board.grid(),
                BOARD_WIDTH as int,
                BOARD_HEIGHT as int,
                old(self).piece,
            ),
        ensures
            lock_rel(*old(self), *final(self), r),
            final(self).wf(),
            final(self).game_over == (r is GameOver),
    {
        if self.piece.row < 0 {
            self.game_over = true;
            return StepResult::GameOver(self.score);
        }
        let ghost placed = grid_with_piece(self.board.grid(), self.piece);
        self.board.set_piece(&self.piece);
        proof {
            assert(self.board.grid() =~~= placed);
        }
        let k = self.board.clear_rows();
        proof {
            crate::board::lemma_surviving_len(placed.drop_first());
            assert(0 <= k <= 19);
            assert((k as int) * (k as int) <= 361) by (nonlinear_arith)
                requires
                    0 <= k <= 19,
            ;
        }
        let ksq: u64 = (k as u64) * (k as u64);
        if self.score <= u64::MAX - ksq {
            self.score = self.score + ksq;
        } else {
            self.score = u64::MAX;
        }
        let next = self.piece_bag.pop().unwrap();
        self.piece = next.prepare();
        if self.piece_bag.len() == 0 {
            self.piece_bag = generate_pieces();
        }
        StepResult::Continue
    }

    /// One frame: accumulate the elapsed milliseconds, let gravity move or
    /// lock the piece, apply the held keys (sideways move, rotation with
    /// kicks, hard drop), recompute the ghost, and tell the scene stack
    /// what to do: `Stay` to go on, `Push` of the pause overlay, or `Pop`
    /// once the game is over. A finished game never changes again.
    /// The gravity phase of one frame; see `gravity_rel`.
    fn gravity_phase(&mut self, input: &InputState, dt_ms: u64) -> (r: StepResult)
        requires
            old(self).wf(),
            !old(self).game_over,
        ensures
            gravity_rel(*old(self), *input, dt_ms, *final(self), r),
            final(self).wf(),
            r is Continue ==> !final(self).game_over,
    {
        let ghost pre = *self;
        self.move_dt = sat_add_ms(self.move_dt, dt_ms);
        if self.move_dt >= MOVE_WAIT_MS || (input.down && self.move_dt >= FAST_MOVE_WAIT_MS) {
            self.piece.row = self.piece.row + 1;
            if self.board.collides(&self.piece) {
                self.piece.row = self.piece.row - 1;
                self.move_dt = 0;
                proof {
                    assert(self.piece == pre.piece);
                    assert(*self == (MainScene { move_dt: 0u64, ..pre }));
                }
                let res = self.set_piece();
                return res;
            } else {
                self.move_dt = 0;
                proof {
                    lemma_free_piece_row(
                        self.board.grid(),
                        BOARD_WIDTH as int,
                        BOARD_HEIGHT as int,
                        self.piece,
                    );
                }
            }
        }
        StepResult::Continue
    }

    /// The key phase of one frame; see `keys_rel`. The second component of
    /// the result reports whether the pause overlay was requested.
    #[verifier::rlimit(100)]
    fn key_phase(&mut self, input: &InputState, dt_ms: u64) -> (ret: (StepResult, bool))
        requires
            old(self).wf(),
            !old(self).game_over,
        ensures
            keys_rel(*old(self), *input, dt_ms, *final(self), ret.0, ret.1),
            final(self).wf(),
            ret.0 is Continue ==> !final(self).game_over,
    {
        self.key_dt = sat_add_ms(self.key_dt, dt_ms);
        let ghost s1 = *self;
        if self.key_dt < KEY_WAIT_MS {
            return (StepResult::Continue, false);
        }
        let mut moved_side = false;
        if input.left && self.piece.column > i32::MIN {
            let cand = self.piece.shift(-1);
            if !self.board.collides(&cand) {
                self.piece = cand;
                self.key_dt = 0;
                moved_side = true;
            }
        }
        if !moved_side && input.right && self.piece.column < i32::MAX {
            let cand = self.piece.shift(1);
            if !self.board.collides(&cand) {
                self.piece = cand;
                self.key_dt = 0;
            }
        }
        proof {
            assert(*self == shift_step(s1, *input));
            assert(self.wf());
        }
        if input.rotate {
            self.rotate_piece();
            self.key_dt = 0;
        }
        let ghost s3 = *self;
        proof {
            assert(s3 == rotate_step(shift_step(s1, *input), *input));
        }
        let mut res = StepResult::Continue;
        if input.hard_drop {
            let q = self.drop_piece(self.piece);
            proof {
                assert(is_drop_target(
                    s3.board.grid(),
                    BOARD_WIDTH as int,
                    BOARD_HEIGHT as int,
                    s3.piece,
                    q,
                ));
                if q.row >= 0 {
                    if q.row >= s3.piece.row {
                        assert(!piece_hits(
                            s3.board.grid(),
                            BOARD_WIDTH as int,
                            BOARD_HEIGHT as int,
                            with_row(s3.piece, q.row as int),
                        ));
                        assert(with_row(s3.piece, q.row as int) == q);
                    } else {
                        assert(piece_hits(
                            s3.board.grid(),
                            BOARD_WIDTH as int,
                            BOARD_HEIGHT as int,
                            with_row(s3.piece, q.row + 1),
                        ));
                        assert(with_row(s3.piece, s3.piece.row as int) == s3.piece);
                        assert(s3.piece.row <= -1);
                    }
                }
            }
            self.piece = q;
            self.key_dt = 0;
            proof {
                assert(*self == (MainScene { piece: q, key_dt: 0u64, ..s3 }));
            }
            res = self.set_piece();
            match res {
                StepResult::GameOver(_) => {
                    proof {
                        assert(keys_rel(*old(self), *input, dt_ms, *self, res, false));
                    }
                    return (res, false);
                },
                StepResult::Continue => {},
            }
        }
        (res, input.pause)
    }

    /// One frame: accumulate the elapsed milliseconds, let gravity move or
    /// lock the piece, apply the held keys (sideways move, rotation with
    /// kicks, hard drop), recompute the ghost, and tell the scene stack
    /// what to do: `Stay` to go on, `Push` of the pause overlay, or `Pop`
    /// once the game is over. A finished game never changes again.
    pub fn update(&mut self, input: &InputState, dt_ms: u64) -> (t: Transition)
        requires
            old(self).wf(),
        ensures
            final(self).wf(),
            update_rel(*old(self), *input, dt_ms, *final(self), t),
    {
        let ghost pre = *self;
        if self.game_over {
            return Transition::Pop;
        }
        let r1 = self.gravity_phase(input, dt_ms);
        let ghost mid1 = *self;
        match r1 {
            StepResult::GameOver(_) => {
                proof {
                    assert(update_rel(pre, *input, dt_ms, *self, Transition::Pop));
                }
                return Transition::Pop;
            },
            StepResult::Continue => {},
        }
        let (r2, pushed) = self.key_phase(input, dt_ms);
        let ghost mid2 = *self;
        match r2 {
            StepResult::GameOver(_) => {
                proof {
                    assert(update_rel(pre, *input, dt_ms, *self, Transition::Pop));
                }
                return Transition::Pop;
            },
            StepResult::Continue => {},
        }
        if pushed {
            proof {
                assert(update_rel(
                    pre,
                    *input,
                    dt_ms,
                    *self,
                    Transition::Push(State::Pause(PauseScene)),
                ));
            }
            return Transition::Push(State::Pause(PauseScene));
        }
        self.update_ghost();
        proof {
            assert(update_rel(pre, *input, dt_ms, *self, Transition::Stay));
        }
        Transition::Stay
    }
}

/// Saturating addition on millisecond counters.
fn sat_add_ms(a: u64, b: u64) -> (r: u64)
    ensures
        r == sat_add(a, b),
{
    if a <= u64::MAX - b {
        a + b
    } else {
        u64::MAX
    }
}

/// `p` turned one quarter-turn clockwise in place.
pub open spec fn rotated_once(p: Piece) -> Piece {
    Piece { orientation: ((p.orientation as int + 1) % 4) as u8, ..p }
}

/// The `t`-th rotation candidate: the rotated piece kicked `t` columns to
/// the left.
pub open spec fn kick_candidate(p: Piece, t: int) -> Piece {
    Piece { column: (p.column - t) as i32, ..rotated_once(p) }
}

/// The `t`-th candidate is usable: its column exists in the machine range
/// and it does not collide.
pub open spec fn candidate_free(
    g: Seq<Seq<Cell>>,
    width: int,
    height: int,
    p: Piece,
    t: int,
) -> bool {
    &&& p.column - t >= i32::MIN
    &&& !piece_hits(g, width, height, kick_candidate(p, t))
}

/// What rotation resolution commits: the first usable candidate among kicks
/// 0..4, or the unchanged piece when all four are blocked.
pub open spec fn kick_target(g: Seq<Seq<Cell>>, width: int, height: int, p: Piece) -> Piece {
    if candidate_free(g, width, height, p, 0) {
        kick_candidate(p, 0)
    } else if candidate_free(g, width, height, p, 1) {
        kick_candidate(p, 1)
    } else if candidate_free(g, width, height, p, 2) {
        kick_candidate(p, 2)
    } else if candidate_free(g, width, height, p, 3) {
        kick_candidate(p, 3)
    } else {
        p
    }
}

/// Law: a piece boxed in on all four kick attempts is left completely
/// unchanged by rotation resolution — position and rotation both.
pub proof fn lemma_rotation_rejected(g: Seq<Seq<Cell>>, width: int, height: int, p: Piece)
    requires
        forall|t: int| 0 <= t < 4 ==> !candidate_free(g, width, height, p, t),
    ensures
        kick_target(g, width, height, p) == p,
{
}

/// The grid with the on-board blocks of `p` written in as full cells of the
/// piece's color.
pub open spec fn grid_with_piece(g: Seq<Seq<Cell>>, p: Piece) -> Seq<Seq<Cell>> {
    Seq::new(
        g.len(),
        |r: int|
            Seq::new(
                g[r].len(),
                |c: int|
                    if covered(p, r, c) {
                        Cell::Full(p.color)
                    } else {
                        g[r][c]
                    },
            ),
    )
}

/// The score after a lock that cleared `k` rows: the squared clear count is
/// added, pinned at the top of the range.
pub open spec fn score_after(s: u64, k: int) -> u64 {
    if s + k * k <= u64::MAX {
        (s + k * k) as u64
    } else {
        u64::MAX
    }
}

/// A freshly generated 7-bag: one valid piece of each kind.
pub open spec fn is_full_bag(bag: Seq<Piece>) -> bool {
    &&& bag.len() == 7
    &&& forall|k: int| 0 <= k < 7 ==> is_fresh_piece(#[trigger] bag[k])
    &&& bag.map_values(|p: Piece| p.shape).to_multiset() == all_kinds().to_multiset()
}

/// `p` moved to the spawn position.
pub open spec fn spawned(p: Piece) -> Piece {
    Piece { row: -2i32, column: 3i32, ..p }
}

/// How one lock-in step relates the state before to the state after. With
/// the piece still above the board (anchor row negative) the game ends:
/// the terminal flag is set, the score is reported, nothing else changes.
/// Otherwise the piece is written in, rows are cleared, the score grows by
/// the squared clear count, and the next piece is drawn from the end of the
/// bag; an emptied bag is replaced by some fresh 7-bag (which one is up to
/// the shuffle).
/// When gravity fires on this frame: the accumulated timer reaches the
/// ordinary interval, or the short one while the soft-drop key is held.
pub open spec fn gravity_fires(pre: MainScene, input: InputState, dt: u64) -> bool {
    ||| sat_add(pre.move_dt, dt) >= MOVE_WAIT_MS
    ||| (input.down && sat_add(pre.move_dt, dt) >= FAST_MOVE_WAIT_MS)
}

/// The gravity phase of one frame: the elapsed time is accumulated; when
/// gravity fires, the piece moves down one row — or, if that collides, it
/// stays and locks in — and the timer restarts.
pub open spec fn gravity_rel(
    pre: MainScene,
    input: InputState,
    dt: u64,
    post: MainScene,
    r: StepResult,
) -> bool {
    if !gravity_fires(pre, input, dt) {
        &&& post == (MainScene { move_dt: sat_add(pre.move_dt, dt), ..pre })
        &&& r is Continue
    } else {
        let moved = Piece { row: (pre.piece.row + 1) as i32, ..pre.piece };
        if !piece_hits(pre.board.grid(), BOARD_WIDTH as int, BOARD_HEIGHT as int, moved) {
            &&& post == (MainScene { piece: moved, move_dt: 0u64, ..pre })
            &&& r is Continue
        } else {
            exists|mid: MainScene|
                #[trigger] lock_rel((MainScene { move_dt: 0u64, ..pre }), mid, r) && post == mid
        }
    }
}

/// The piece can move sideways by `d`: the new column exists in the
/// machine's integer range and the moved piece does not collide.
pub open spec fn can_shift(s: MainScene, d: int) -> bool {
    &&& i32::MIN <= s.piece.column + d <= i32::MAX
    &&& !piece_hits(
        s.board.grid(),
        BOARD_WIDTH as int,
        BOARD_HEIGHT as int,
        (Piece { column: (s.piece.column + d) as i32, ..s.piece }),
    )
}

/// The sideways-move step: left is tried first, a blocked left falls
/// through to right, and a handled move restarts the key-repeat timer.
pub open spec fn shift_step(s: MainScene, input: InputState) -> MainScene {
    if input.left && can_shift(s, -1) {
        MainScene {
            piece: (Piece { column: (s.piece.column - 1) as i32, ..s.piece }),
            key_dt: 0u64,
            ..s
        }
    } else if input.right && can_shift(s, 1) {
        MainScene {
            piece: (Piece { column: (s.piece.column + 1) as i32, ..s.piece }),
            key_dt: 0u64,
            ..s
        }
    } else {
        s
    }
}

/// The rotation step: resolved against the board with kicks; handling the
/// key restarts the repeat timer.
pub open spec fn rotate_step(s: MainScene, input: InputState) -> MainScene {
    if input.rotate {
        MainScene {
            piece: kick_target(s.board.grid(), BOARD_WIDTH as int, BOARD_HEIGHT as int, s.piece),
            key_dt: 0u64,
            ..s
        }
    } else {
        s
    }
}

/// The pause step: with the pause key held, the frame ends here and the
/// state is handed to the scene stack to be overlaid (the stack's pause
/// hook marks it suspended); the repeat timer is not restarted.
pub open spec fn pause_step(s: MainScene, input: InputState, post: MainScene, pushed: bool) -> bool {
    &&& post == s
    &&& pushed == input.pause
}

/// The key phase of one frame: the elapsed time is accumulated; once the
/// repeat interval is reached, the held keys act in order — sideways move,
/// rotation, hard drop (projecting the piece down and locking it), then
/// the pause request.
pub open spec fn keys_rel(
    pre: MainScene,
    input: InputState,
    dt: u64,
    post: MainScene,
    r: StepResult,
    pushed: bool,
) -> bool {
    let acc = sat_add(pre.key_dt, dt);
    let s1 = MainScene { key_dt: acc, ..pre };
    if acc < KEY_WAIT_MS {
        &&& post == s1
        &&& r is Continue
        &&& !pushed
    } else {
        let s3 = rotate_step(shift_step(s1, input), input);
        if input.hard_drop {
            exists|q: Piece, mid: MainScene|
                {
                    &&& is_drop_target(
                        s3.board.grid(),
                        BOARD_WIDTH as int,
                        BOARD_HEIGHT as int,
                        s3.piece,
                        q,
                    )
                    &&& #[trigger] lock_rel((MainScene { piece: q, key_dt: 0u64, ..s3 }), mid, r)
                    &&& if r is GameOver {
                        post == mid && !pushed
                    } else {
                        pause_step(mid, input, post, pushed)
                    }
                }
        } else {
            &&& r is Continue
            &&& pause_step(s3, input, post, pushed)
        }
    }
}

/// How one full frame relates states and the returned transition: a
/// finished game changes nothing and asks to leave the stack; otherwise
/// the gravity phase, the key phase and the ghost recomputation run in
/// order, ending the frame early when the game ends (`Pop`) or the pause
/// overlay is requested (`Push`).
pub open spec fn update_rel(
    pre: MainScene,
    input: InputState,
    dt: u64,
    post: MainScene,
    t: Transition,
) -> bool {
    if pre.game_over {
        &&& post == pre
        &&& t is Pop
    } else {
        exists|mid: MainScene, r1: StepResult|
            {
                &&& #[trigger] gravity_rel(pre, input, dt, mid, r1)
                &&& if r1 is GameOver {
                    post == mid && t is Pop
                } else {
                    exists|mid2: MainScene, r2: StepResult, pushed: bool|
                        {
                            &&& #[trigger] keys_rel(mid, input, dt, mid2, r2, pushed)
                            &&& if r2 is GameOver {
                                post == mid2 && t is Pop
                            } else if pushed {
                                post == mid2 && t == Transition::Push(State::Pause(PauseScene))
                            } else {
                                &&& is_drop_target(
                                    mid2.board.grid(),
                                    BOARD_WIDTH as int,
                                    BOARD_HEIGHT as int,
                                    (Piece { translucent: true, ..mid2.piece }),
                                    post.ghost_piece,
                                )
                                &&& post == (MainScene { ghost_piece: post.ghost_piece, ..mid2 })
                                &&& t is Stay
                            }
                        }
                }
            }
    }
}

pub open spec fn lock_rel(pre: MainScene, post: MainScene, r: StepResult) -> bool {
    if pre.piece.row < 0 {
        &&& r == StepResult::GameOver(pre.score)
        &&& post == (MainScene { game_over: true, ..pre })
    } else {
        let placed = grid_with_piece(pre.board.grid(), pre.piece);
        let k = cleared_count(placed);
        &&& r is Continue
        &&& post.board.width == pre.board.width
        &&& post.board.height == pre.board.height
        &&& post.board.grid() == cleared_grid(placed, pre.board.width as int)
        &&& post.score == score_after(pre.score, k)
        &&& post.piece == spawned(pre.piece_bag@.last())
        &&& (if pre.piece_bag@.len() > 1 {
            post.piece_bag@ == pre.piece_bag@.drop_last()
        } else {
            is_full_bag(post.piece_bag@)
        })
        &&& post.ghost_piece == pre.ghost_piece
        &&& post.move_dt == pre.move_dt
        &&& post.key_dt == pre.key_dt
        &&& post.game_over == pre.game_over
        &&& post.paused == pre.paused
    }
}

} // verus!
