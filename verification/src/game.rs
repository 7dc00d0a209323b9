//! The game-state engine: the board of settled cells, the active piece, the
//! next-piece preview, score and level, advanced on a fixed logical clock.
//!
//! The engine is a small state machine. `StartNextBlock` promotes the preview
//! piece to active and spawns it above the board; `MoveBlock` drops the
//! active piece one row per logical tick until it lands, then settles it,
//! clears any completed rows and scores them; a piece that lands while still
//! above the top row ends the game, and `GameOver` is terminal.

use vstd::prelude::*;
use crate::block::{Block, BlockType, Rotation};
use crate::block::{lemma_cells_distinct, lemma_cells_in_bbox, lemma_cells_in_grid, translate_cells};
use crate::randwrapper::RangeRng;
use crate::util::Vec2;

verus! {

/// The engine's phase. Exactly one piece is falling during `MoveBlock`;
/// `StartNextBlock` is the instant between settling one piece and spawning
/// the next; `GameOver` is terminal.
#[derive(Clone, Copy, Debug, PartialEq, Eq, Structural)]
pub enum GamePhase {
    StartNextBlock,
    MoveBlock,
    GameOver,
}

/// A board edge the active piece is tested against. The ceiling is
/// deliberately absent: pieces may stand partly or fully above row 0.
#[derive(Clone, Copy)]
enum Bound {
    Floor(i32),
    LeftWall(i32),
    RightWall(i32),
}

/// The authoritative state of one game session.
pub struct GameState<R: RangeRng> {
    board_width: i32,
    board_height: i32,
    block_type_rng: R,
    settled_cells: Vec<Option<BlockType>>,
    next_block: Block,
    active_block: Block,
    active_block_pos: Vec2,
    game_phase: GamePhase,
    score: usize,
    line_score: usize,
    time_ms: u64,
}

/// Saturating addition on `usize` values viewed as integers.
pub open spec fn sat_add(a: int, b: int) -> int {
    if a + b <= usize::MAX {
        a + b
    } else {
        usize::MAX as int
    }
}

/// The points awarded for clearing `n` rows in one settle.
pub open spec fn spec_clear_score(n: int) -> int {
    if n == 0 {
        0
    } else if n == 1 {
        40
    } else if n == 2 {
        100
    } else if n == 3 {
        300
    } else {
        1200
    }
}

impl<R: RangeRng> GameState<R> {
    // ----- the mathematical view of the state -----

    pub closed spec fn spec_width(self) -> int {
        self.board_width as int
    }

    pub closed spec fn spec_height(self) -> int {
        self.board_height as int
    }

    /// The settled cells in row-major order: entry `y * width + x` is the
    /// shape occupying board position `(x, y)`, or `None`.
    pub closed spec fn board(self) -> Seq<Option<BlockType>> {
        self.settled_cells@
    }

    pub closed spec fn spec_active_block(self) -> Block {
        self.active_block
    }

    pub closed spec fn spec_active_pos(self) -> Vec2 {
        self.active_block_pos
    }

    pub closed spec fn spec_next_block(self) -> Block {
        self.next_block
    }

    pub closed spec fn spec_phase(self) -> GamePhase {
        self.game_phase
    }

    pub closed spec fn spec_score(self) -> int {
        self.score as int
    }

    pub closed spec fn spec_line_score(self) -> int {
        self.line_score as int
    }

    /// The accumulated sub-tick time remainder, in milliseconds.
    pub closed spec fn spec_time_ms(self) -> int {
        self.time_ms as int
    }

    pub closed spec fn spec_rng(self) -> R {
        self.block_type_rng
    }

    /// `level = line_score / 5 + 1`: one level per five cleared lines.
    pub open spec fn spec_level(self) -> int {
        self.spec_line_score() / 5 + 1
    }

    /// The logical tick period in milliseconds: it shrinks with the level
    /// and plateaus once ten level steps have been taken.
    pub open spec fn spec_move_period(self) -> int {
        let steps = if self.spec_level() - 1 < 10 {
            self.spec_level() - 1
        } else {
            10
        };
        250 - 15 * steps
    }

    /// Whether board position `(x, y)` holds a settled cell. Positions
    /// outside the board are never occupied.
    pub open spec fn occupied(self, x: int, y: int) -> bool {
        &&& 0 <= x < self.spec_width()
        &&& 0 <= y < self.spec_height()
        &&& self.board()[y * self.spec_width() + x] is Some
    }

    /// Whether piece `b`, anchored at `(px, py)`, overlaps a settled cell.
    /// Cells outside the board never collide.
    pub open spec fn piece_collides_at(self, b: Block, px: int, py: int) -> bool {
        let cs = b.spec_cells();
        ||| self.occupied(px + cs[0].x, py + cs[0].y)
        ||| self.occupied(px + cs[1].x, py + cs[1].y)
        ||| self.occupied(px + cs[2].x, py + cs[2].y)
        ||| self.occupied(px + cs[3].x, py + cs[3].y)
    }

    /// The piece rests on the floor: its bottom row sits on the last board row.
    pub open spec fn spec_touching_floor(self, b: Block, py: int) -> bool {
        b.spec_top() + py + b.spec_height() >= self.spec_height()
    }

    /// The piece's leftmost cell sits in column 0.
    pub open spec fn spec_touching_left_wall(b: Block, px: int) -> bool {
        b.spec_left() + px <= 0
    }

    /// The piece's rightmost cell sits in the last column.
    pub open spec fn spec_touching_right_wall(self, b: Block, px: int) -> bool {
        b.spec_left() + px + b.spec_width() >= self.spec_width()
    }

    /// The piece has landed: it touches the floor, or a settled cell sits
    /// directly below one of its cells.
    pub open spec fn spec_landed(self, b: Block, px: int, py: int) -> bool {
        self.spec_touching_floor(b, py) || self.piece_collides_at(b, px, py + 1)
    }

    /// The piece lies between the walls and above the floor. No ceiling:
    /// `py` may be arbitrarily negative.
    pub open spec fn piece_in_bounds(self, b: Block, px: int, py: int) -> bool {
        &&& 0 <= b.spec_left() + px
        &&& b.spec_left() + px + b.spec_width() <= self.spec_width()
        &&& py + b.spec_top() + b.spec_height() <= self.spec_height()
    }

    /// The board's dimensions are sane and it stores exactly one cell per
    /// board position.
    pub open spec fn board_shape_ok(self) -> bool {
        &&& 4 <= self.spec_width()
        &&& 4 <= self.spec_height()
        &&& self.spec_width() * self.spec_height() <= i32::MAX
        &&& self.board().len() == self.spec_width() * self.spec_height()
    }

    /// The settled cell stored at board position `(x, y)`; meaningful only
    /// for positions on the board.
    pub open spec fn cell_at(self, x: int, y: int) -> Option<BlockType>
        recommends
            0 <= x < self.spec_width(),
            0 <= y < self.spec_height(),
    {
        self.board()[y * self.spec_width() + x]
    }

    /// The engine's well-formedness invariant: every public operation
    /// requires and preserves it.
    ///
    /// The board stores exactly `width * height` cells. The active piece
    /// always lies between the walls and above the floor. Whenever a piece
    /// is falling (or the game has ended), it does not overlap the settled
    /// cells, except possibly in the instant after spawning while it still
    /// sits above the top of the board. A finished game always ended with a
    /// piece that landed while above row 0. The settled board never holds a
    /// completely full row: the settle's sweep clears every row the piece
    /// completes before the new state is exposed.
    pub open spec fn state_ok(self) -> bool {
        &&& self.board_shape_ok()
        &&& forall|row: int|
            0 <= row < self.spec_height() ==> !row_full_in(
                self.board(),
                self.spec_width(),
                row,
            )
        &&& self.piece_in_bounds(
            self.spec_active_block(),
            self.spec_active_pos().x as int,
            self.spec_active_pos().y as int,
        )
        &&& (self.spec_phase() is MoveBlock || self.spec_phase() is GameOver) ==> {
            ||| !self.piece_collides_at(
                self.spec_active_block(),
                self.spec_active_pos().x as int,
                self.spec_active_pos().y as int,
            )
            ||| self.spec_active_pos().y < 0
        }
        &&& self.spec_phase() is GameOver ==> self.spec_active_pos().y < 0
            && self.spec_landed(
            self.spec_active_block(),
            self.spec_active_pos().x as int,
            self.spec_active_pos().y as int,
        )
    }

    /// `state_ok` together with the clock's resting bound: between calls the
    /// accumulated time remainder is always below the longest tick period.
    pub open spec fn inv(self) -> bool {
        &&& self.state_ok()
        &&& 0 <= self.spec_time_ms() < 250
    }

    // ----- construction -----

    /// A fresh game on an empty `board_width` by `board_height` board. One
    /// piece is drawn at once to seed the preview; the first tick of
    /// `update` promotes it to the active piece.
    ///
    /// Both dimensions must be at least a piece's four-cell extent: on a
    /// narrower or shallower board a spawned piece can stand partly outside
    /// the grid, and settling it would write through the row-major index
    /// into the wrong row — an invariant violation, so those boards are
    /// excluded here.
    pub fn new(board_width: i32, board_height: i32, mut block_type_rng: R) -> (game: GameState<R>)
        requires
            4 <= board_width,
            4 <= board_height,
            board_width * board_height <= i32::MAX,
        ensures
            game.inv(),
            game.spec_width() == board_width,
            game.spec_height() == board_height,
            game.board().len() == board_width * board_height,
            forall|x: int, y: int| !game.occupied(x, y),
            game.spec_phase() is StartNextBlock,
            game.spec_next_block().rot == Rotation::Rot0,
            exists|n: usize|
                1 <= n < 8 && (#[trigger] block_type_rng.spec_may_yield(1, 8, n))
                    && game.spec_next_block() == Block::spec_from_number(n as int),
            game.spec_score() == 0,
            game.spec_line_score() == 0,
            game.spec_time_ms() == 0,
    {
        let initial_block = Block::random(&mut block_type_rng);
        proof {
            lemma_mul_bounds(board_width as int, board_height as int);
        }
        let max_blocks: usize = (board_width * board_height) as usize;
        let mut settled_cells: Vec<Option<BlockType>> = Vec::new();
        let mut i: usize = 0;
        while i < max_blocks
            invariant
                settled_cells@.len() == i,
                i <= max_blocks,
                forall|j: int| 0 <= j < i ==> settled_cells@[j] is None,
            decreases max_blocks - i,
        {
            settled_cells.push(None);
            i = i + 1;
        }
        let game = GameState {
            board_width,
            board_height,
            block_type_rng,
            settled_cells,
            next_block: initial_block,
            active_block: Block::default(),
            active_block_pos: Vec2::zero(),
            game_phase: GamePhase::StartNextBlock,
            score: 0,
            line_score: 0,
            time_ms: 0,
        };
        proof {
            assert forall|x: int, y: int| !game.occupied(x, y) by {
                if 0 <= x < game.spec_width() && 0 <= y < game.spec_height() {
                    lemma_grid_index(game.spec_width(), game.spec_height(), x, y);
                }
            }
            assert forall|row: int| 0 <= row < game.spec_height() implies !row_full_in(
                game.board(),
                game.spec_width(),
                row,
            ) by {
                lemma_grid_index(game.spec_width(), game.spec_height(), 0, row);
                assert(game.board()[row * game.spec_width()] is None);
                assert(game.board()[row * game.spec_width() + 0] is None);
            }
        }
        game
    }

    // ----- queries -----

    pub fn width(&self) -> (w: i32)
        ensures
            w == self.spec_width(),
    {
        self.board_width
    }

    pub fn height(&self) -> (h: i32)
        ensures
            h == self.spec_height(),
    {
        self.board_height
    }

    /// The piece that will become active at the next spawn.
    pub fn preview_block(&self) -> (b: Block)
        ensures
            b == self.spec_next_block(),
    {
        self.next_block
    }

    /// The falling piece and its anchor position, or `None` exactly in the
    /// instant between settling one piece and spawning the next.
    pub fn active_block(&self) -> (r: Option<(Block, Vec2)>)
        ensures
            r is Some <==> !(self.spec_phase() is StartNextBlock),
            r is Some ==> r->Some_0.0 == self.spec_active_block() && r->Some_0.1
                == self.spec_active_pos(),
    {
        if self.game_phase == GamePhase::StartNextBlock {
            None
        } else {
            Some((self.active_block, self.active_block_pos))
        }
    }

    pub fn is_game_over(&self) -> (r: bool)
        ensures
            r <==> self.spec_phase() is GameOver,
    {
        self.game_phase == GamePhase::GameOver
    }

    pub fn score(&self) -> (s: usize)
        ensures
            s == self.spec_score(),
    {
        self.score
    }

    /// Each level is reached by clearing five lines.
    pub fn level(&self) -> (l: usize)
        ensures
            l == self.spec_level(),
    {
        (self.line_score / 5) + 1
    }

    // ----- board access -----

    /// Row-major index of board position `(x, y)`.
    fn cell_index(&self, x: i32, y: i32) -> (r: usize)
        requires
            self.board_shape_ok(),
            0 <= x < self.spec_width(),
            0 <= y < self.spec_height(),
        ensures
            r == y * self.spec_width() + x,
            r < self.board().len(),
    {
        proof {
            lemma_grid_index(self.spec_width(), self.spec_height(), x as int, y as int);
        }
        (self.board_width * y + x) as usize
    }

    /// Whether board position `(x, y)` holds a settled cell; positions
    /// outside the board are reported free.
    fn is_cell_occupied(&self, x: i32, y: i32) -> (r: bool)
        requires
            self.board_shape_ok(),
        ensures
            r == self.occupied(x as int, y as int),
    {
        if 0 <= x && x < self.board_width && 0 <= y && y < self.board_height {
            let idx = self.cell_index(x, y);
            self.settled_cells[idx].is_some()
        } else {
            false
        }
    }
}

impl<R: RangeRng> GameState<R> {
    /// All state components except the active piece and its position agree
    /// between `pre` and `post`.
    pub open spec fn same_except_active_piece(pre: Self, post: Self) -> bool {
        &&& post.spec_width() == pre.spec_width()
        &&& post.spec_height() == pre.spec_height()
        &&& post.board() == pre.board()
        &&& post.spec_next_block() == pre.spec_next_block()
        &&& post.spec_phase() == pre.spec_phase()
        &&& post.spec_score() == pre.spec_score()
        &&& post.spec_line_score() == pre.spec_line_score()
        &&& post.spec_time_ms() == pre.spec_time_ms()
        &&& post.spec_rng() == pre.spec_rng()
    }

    /// Ranges the invariant puts on the active piece's position, and room
    /// bounds on the board dimensions; used to discharge arithmetic side
    /// conditions.
    proof fn lemma_piece_ranges(self)
        requires
            self.state_ok(),
        ensures
            -3 <= self.spec_active_pos().x <= self.spec_width(),
            self.spec_active_pos().y <= self.spec_height(),
            4 * self.spec_width() <= i32::MAX,
            4 * self.spec_height() <= i32::MAX,
    {
        lemma_cells_in_bbox(self.spec_active_block());
        assert(4 * self.spec_width() <= self.spec_width() * self.spec_height()
            && 4 * self.spec_height() <= self.spec_width() * self.spec_height())
            by (nonlinear_arith)
            requires
                4 <= self.spec_width(),
                4 <= self.spec_height(),
        ;
    }

    fn left_wall(&self) -> (b: Bound)
        ensures
            b == Bound::LeftWall(-1i32),
    {
        Bound::LeftWall(-1)
    }

    fn right_wall(&self) -> (b: Bound)
        ensures
            b == Bound::RightWall(self.board_width),
    {
        Bound::RightWall(self.board_width)
    }

    fn floor(&self) -> (b: Bound)
        ensures
            b == Bound::Floor(self.board_height),
    {
        Bound::Floor(self.board_height)
    }

    /// Whether the piece anchored at `block_pos + move_vector` overlaps a
    /// settled cell. Cells outside the board never collide.
    fn does_block_collide_with_settled_blocks(
        &self,
        block: Block,
        block_pos: Vec2,
        move_vector: Vec2,
    ) -> (r: bool)
        requires
            self.board_shape_ok(),
            i32::MIN <= block_pos.x + move_vector.x <= i32::MAX - 3,
            i32::MIN <= block_pos.y + move_vector.y <= i32::MAX - 3,
        ensures
            r == self.piece_collides_at(
                block,
                block_pos.x + move_vector.x,
                block_pos.y + move_vector.y,
            ),
    {
        proof {
            lemma_cells_in_grid(block);
        }
        let moved_block_cells = translate_cells(
            &block.cells(),
            block_pos.y + move_vector.y,
            block_pos.x + move_vector.x,
        );
        let c0 = self.is_cell_occupied(moved_block_cells[0].x, moved_block_cells[0].y);
        let c1 = self.is_cell_occupied(moved_block_cells[1].x, moved_block_cells[1].y);
        let c2 = self.is_cell_occupied(moved_block_cells[2].x, moved_block_cells[2].y);
        let c3 = self.is_cell_occupied(moved_block_cells[3].x, moved_block_cells[3].y);
        c0 || c1 || c2 || c3
    }

    /// Whether the active piece has landed: it rests on the floor or on a
    /// settled cell.
    fn has_active_block_landed(&self) -> (r: bool)
        requires
            self.state_ok(),
        ensures
            r == self.spec_landed(
                self.spec_active_block(),
                self.spec_active_pos().x as int,
                self.spec_active_pos().y as int,
            ),
    {
        proof {
            self.lemma_piece_ranges();
        }
        let is_touching_floor = is_touching_bound(
            self.active_block,
            self.active_block_pos,
            self.floor(),
        );
        if is_touching_floor {
            return true;
        }
        self.does_block_collide_with_settled_blocks(
            self.active_block,
            self.active_block_pos,
            Vec2 { x: 0, y: 1 },
        )
    }

    /// The active piece may move by `horizontal_motion`: the motion is not
    /// null, the piece is not already touching the wall in that direction,
    /// and the moved piece overlaps no settled cell.
    pub open spec fn spec_can_move(self, horizontal_motion: int) -> bool {
        let b = self.spec_active_block();
        let px = self.spec_active_pos().x as int;
        let py = self.spec_active_pos().y as int;
        &&& horizontal_motion != 0
        &&& !(if horizontal_motion < 0 {
            Self::spec_touching_left_wall(b, px)
        } else {
            self.spec_touching_right_wall(b, px)
        })
        &&& !self.piece_collides_at(b, px + horizontal_motion, py)
    }

    fn can_active_block_move(&self, horizontal_motion: i32) -> (r: bool)
        requires
            self.state_ok(),
            -1 <= horizontal_motion <= 1,
        ensures
            r == self.spec_can_move(horizontal_motion as int),
    {
        if horizontal_motion == 0 {
            return false;
        }
        proof {
            self.lemma_piece_ranges();
        }
        let wall_to_check = if horizontal_motion < 0 {
            self.left_wall()
        } else {
            self.right_wall()
        };
        let is_touching_wall = is_touching_bound(
            self.active_block,
            self.active_block_pos,
            wall_to_check,
        );
        if is_touching_wall {
            return false;
        }
        let motion_vec = Vec2 { x: horizontal_motion, y: 0 };
        let will_block_collide = self.does_block_collide_with_settled_blocks(
            self.active_block,
            self.active_block_pos,
            motion_vec,
        );
        !will_block_collide
    }

    /// Moves the active piece one column when the move is allowed; a command,
    /// ignored outside the `MoveBlock` phase.
    ///
    /// The motion is one column at most. A multi-column move would test the
    /// walls and the settled cells only at the destination, letting the
    /// piece tunnel through a wall or a stack into a position from which
    /// settling writes outside the board — an invariant violation, so such
    /// motions are excluded here. Drivers send the per-poll sum of one left
    /// and one right key, which stays within one column.
    pub fn move_active_block_horizontal(&mut self, horizontal_motion: i32)
        requires
            old(self).inv(),
            -1 <= horizontal_motion <= 1,
        ensures
            final(self).inv(),
            !(old(self).spec_phase() is MoveBlock) ==> *final(self) == *old(self),
            old(self).spec_phase() is MoveBlock ==> {
                &&& Self::same_except_active_piece(*old(self), *final(self))
                &&& final(self).spec_active_block() == old(self).spec_active_block()
                &&& final(self).spec_active_pos().y == old(self).spec_active_pos().y
                &&& final(self).spec_active_pos().x == if old(self).spec_can_move(
                    horizontal_motion as int,
                ) {
                    old(self).spec_active_pos().x + horizontal_motion
                } else {
                    old(self).spec_active_pos().x as int
                }
            },
    {
        match self.game_phase {
            GamePhase::MoveBlock => {
                proof {
                    self.lemma_piece_ranges();
                }
                if self.can_active_block_move(horizontal_motion) {
                    self.active_block_pos.x = self.active_block_pos.x + horizontal_motion;
                }
            },
            GamePhase::StartNextBlock | GamePhase::GameOver => (),
        }
    }

    /// Moves the active piece one row down. Callers must know the piece has
    /// not landed yet; the regular tick and the quick drop only move it under
    /// that condition.
    pub fn move_active_block_down(&mut self)
        requires
            old(self).state_ok(),
            !old(self).spec_landed(
                old(self).spec_active_block(),
                old(self).spec_active_pos().x as int,
                old(self).spec_active_pos().y as int,
            ),
        ensures
            final(self).state_ok(),
            Self::same_except_active_piece(*old(self), *final(self)),
            final(self).spec_active_block() == old(self).spec_active_block(),
            final(self).spec_active_pos().x == old(self).spec_active_pos().x,
            final(self).spec_active_pos().y == old(self).spec_active_pos().y + 1,
    {
        proof {
            self.lemma_piece_ranges();
            lemma_cells_in_bbox(self.spec_active_block());
        }
        self.active_block_pos.y = self.active_block_pos.y + 1;
    }

    /// Drops the active piece straight to its resting row. The piece is
    /// moved to the first row at or below its current one where it has
    /// landed; the next regular tick then settles it.
    pub fn quick_drop(&mut self)
        requires
            old(self).inv(),
        ensures
            final(self).inv(),
            Self::same_except_active_piece(*old(self), *final(self)),
            final(self).spec_active_block() == old(self).spec_active_block(),
            final(self).spec_active_pos().x == old(self).spec_active_pos().x,
            old(self).spec_active_pos().y <= final(self).spec_active_pos().y,
            final(self).spec_landed(
                final(self).spec_active_block(),
                final(self).spec_active_pos().x as int,
                final(self).spec_active_pos().y as int,
            ),
            forall|yy: int|
                old(self).spec_active_pos().y <= yy < final(self).spec_active_pos().y
                    ==> !final(self).spec_landed(
                    final(self).spec_active_block(),
                    final(self).spec_active_pos().x as int,
                    yy,
                ),
    {
        let ghost pre = *self;
        while !self.has_active_block_landed()
            invariant
                self.inv(),
                Self::same_except_active_piece(pre, *self),
                self.spec_active_block() == pre.spec_active_block(),
                self.spec_active_pos().x == pre.spec_active_pos().x,
                pre.spec_active_pos().y <= self.spec_active_pos().y,
                forall|yy: int|
                    pre.spec_active_pos().y <= yy < self.spec_active_pos().y
                        ==> !self.spec_landed(
                        self.spec_active_block(),
                        self.spec_active_pos().x as int,
                        yy,
                    ),
            decreases self.spec_height() - self.spec_active_pos().y,
        {
            proof {
                lemma_cells_in_bbox(self.spec_active_block());
            }
            let ghost prev = *self;
            self.move_active_block_down();
            proof {
                assert forall|yy: int|
                    pre.spec_active_pos().y <= yy < self.spec_active_pos().y implies !self
                        .spec_landed(
                    self.spec_active_block(),
                    self.spec_active_pos().x as int,
                    yy,
                ) by {
                    if yy < prev.spec_active_pos().y {
                        assert(!prev.spec_landed(
                            prev.spec_active_block(),
                            prev.spec_active_pos().x as int,
                            yy,
                        ));
                    } else {
                        assert(!prev.spec_landed(
                            prev.spec_active_block(),
                            prev.spec_active_pos().x as int,
                            prev.spec_active_pos().y as int,
                        ));
                    }
                }
            }
        }
    }
}

impl<R: RangeRng> GameState<R> {
    /// A kick candidate position is acceptable: it is representable in the
    /// position's integer type, the rotated piece overlaps no settled cell
    /// there, and it violates no floor or wall bound. The ceiling is not
    /// checked: a kicked piece may protrude above the board.
    pub open spec fn spec_kick_ok(self, rb: Block, kx: int, ky: int) -> bool {
        &&& i32::MIN <= kx <= i32::MAX
        &&& i32::MIN <= ky <= i32::MAX
        &&& !self.piece_collides_at(rb, kx, ky)
        &&& !self.spec_touching_floor(rb, ky)
        &&& !Self::spec_touching_left_wall(rb, kx)
        &&& !self.spec_touching_right_wall(rb, kx)
    }

    /// The active piece after a relative rotation, before any kick.
    pub open spec fn spec_rotated_block(self, relative_rotation: int) -> Block {
        Block {
            rot: self.spec_active_block().rot.spec_rotate(relative_rotation),
            block_type: self.spec_active_block().block_type,
        }
    }

    /// Kick candidate `i` of the active piece's rotation succeeds.
    pub open spec fn spec_kick_accepted(self, relative_rotation: int, i: int) -> bool {
        let b = self.spec_active_block();
        let rb = self.spec_rotated_block(relative_rotation);
        let k = b.rot.spec_kick_attempts(b.block_type, rb.rot)[i];
        self.spec_kick_ok(
            rb,
            self.spec_active_pos().x + k.x,
            self.spec_active_pos().y + k.y,
        )
    }

    /// Tries to rotate the active piece, walking the kick table in order:
    /// the first acceptable candidate gives the rotated piece and its kicked
    /// position; `None` means every candidate failed and the rotation is
    /// rejected.
    fn try_rotate_active_block(&self, relative_rotation: i32) -> (r: Option<(Block, Vec2)>)
        requires
            self.state_ok(),
            relative_rotation == -1 || relative_rotation == 1,
            self.spec_active_block().block_type != BlockType::O,
        ensures
            r is Some <==> exists|i: int|
                0 <= i < 5 && self.spec_kick_accepted(relative_rotation as int, i),
            r matches Some(p) ==> p.0 == self.spec_rotated_block(relative_rotation as int)
                && exists|i: int|
                {
                    let k = self.spec_active_block().rot.spec_kick_attempts(
                        self.spec_active_block().block_type,
                        p.0.rot,
                    )[i];
                    &&& 0 <= i < 5
                    &&& #[trigger] self.spec_kick_accepted(relative_rotation as int, i)
                    &&& (forall|j: int|
                        0 <= j < i ==> !self.spec_kick_accepted(relative_rotation as int, j))
                    &&& p.1.x == self.spec_active_pos().x + k.x
                    &&& p.1.y == self.spec_active_pos().y + k.y
                },
    {
        let original_block = self.active_block;
        let original_block_pos = self.active_block_pos;
        let rotated_block = original_block.rotate(relative_rotation);
        let kicks = original_block.rot.get_kick_attempts(
            original_block.block_type,
            rotated_block.rot,
        );
        proof {
            self.lemma_piece_ranges();
            crate::block::lemma_kick_bounds(
                original_block.rot,
                original_block.block_type,
                rotated_block.rot,
            );
        }
        let mut idx: usize = 0;
        while idx < 5
            invariant
                self.state_ok(),
                relative_rotation == -1 || relative_rotation == 1,
                original_block == self.spec_active_block(),
                original_block_pos == self.spec_active_pos(),
                rotated_block == self.spec_rotated_block(relative_rotation as int),
                kicks@ == original_block.rot.spec_kick_attempts(
                    original_block.block_type,
                    rotated_block.rot,
                ),
                idx <= 5,
                forall|j: int|
                    0 <= j < idx ==> !self.spec_kick_accepted(relative_rotation as int, j),
            decreases 5 - idx,
        {
            proof {
                self.lemma_piece_ranges();
                crate::block::lemma_kick_bounds(
                    original_block.rot,
                    original_block.block_type,
                    rotated_block.rot,
                );
            }
            let kick = kicks[idx];
            let kicked_x = original_block_pos.x.checked_add(kick.x);
            let kicked_y = original_block_pos.y.checked_add(kick.y);
            if kicked_x.is_some() && kicked_y.is_some() {
                let kicked_block_pos = Vec2 { x: kicked_x.unwrap(), y: kicked_y.unwrap() };
                let does_block_collide_after_kick = self.does_block_collide_with_settled_blocks(
                    rotated_block,
                    kicked_block_pos,
                    Vec2::zero(),
                );
                if !does_block_collide_after_kick {
                    let touches = is_touching_bound(rotated_block, kicked_block_pos, self.floor())
                        || is_touching_bound(rotated_block, kicked_block_pos, self.left_wall())
                        || is_touching_bound(rotated_block, kicked_block_pos, self.right_wall());
                    if !touches {
                        proof {
                            assert(self.spec_kick_accepted(relative_rotation as int, idx as int));
                        }
                        return Some((rotated_block, kicked_block_pos));
                    }
                }
            }
            idx = idx + 1;
        }
        None
    }

    /// Rotates the active piece one step, `-1` counter-clockwise or `1`
    /// clockwise, resolving collisions through the kick table; `0` is
    /// explicitly a no-op. A command, ignored outside the `MoveBlock` phase.
    /// An O piece always "rotates" successfully with no geometric change.
    /// If every kick candidate fails, the piece and its position are left
    /// unchanged.
    pub fn rotate_block(&mut self, relative_rotation: i32)
        requires
            old(self).inv(),
            -1 <= relative_rotation <= 1,
        ensures
            final(self).inv(),
            relative_rotation == 0 ==> *final(self) == *old(self),
            !(old(self).spec_phase() is MoveBlock) ==> *final(self) == *old(self),
            old(self).spec_active_block().block_type == BlockType::O ==> *final(self) == *old(
                self,
            ),
            (old(self).spec_phase() is MoveBlock && relative_rotation != 0 && old(
                self,
            ).spec_active_block().block_type != BlockType::O) ==> {
                &&& Self::same_except_active_piece(*old(self), *final(self))
                &&& if exists|i: int|
                    0 <= i < 5 && old(self).spec_kick_accepted(relative_rotation as int, i) {
                    &&& final(self).spec_active_block() == old(self).spec_rotated_block(
                        relative_rotation as int,
                    )
                    &&& exists|i: int|
                        {
                            let k = old(self).spec_active_block().rot.spec_kick_attempts(
                                old(self).spec_active_block().block_type,
                                old(self).spec_rotated_block(relative_rotation as int).rot,
                            )[i];
                            &&& 0 <= i < 5
                            &&& #[trigger] old(self).spec_kick_accepted(
                                relative_rotation as int,
                                i,
                            )
                            &&& (forall|j: int|
                                0 <= j < i ==> !old(self).spec_kick_accepted(
                                    relative_rotation as int,
                                    j,
                                ))
                            &&& final(self).spec_active_pos().x == old(self).spec_active_pos().x
                                + k.x
                            &&& final(self).spec_active_pos().y == old(self).spec_active_pos().y
                                + k.y
                        }
                } else {
                    *final(self) == *old(self)
                }
            },
    {
        if relative_rotation == 0 {
            return ;
        }
        match self.game_phase {
            GamePhase::MoveBlock => {
                let active_block = self.active_block;
                if active_block.block_type == BlockType::O {
                    return ;
                }
                let maybe_rotated_block = self.try_rotate_active_block(relative_rotation);
                if let Some((rotated_block, kicked_pos)) = maybe_rotated_block {
                    self.active_block = rotated_block;
                    self.active_block_pos = kicked_pos;
                }
            },
            GamePhase::StartNextBlock | GamePhase::GameOver => (),
        }
    }
}

/// Whether piece `b`, anchored at `(px, py)`, covers board position `(x, y)`.
pub open spec fn piece_covers(b: Block, px: int, py: int, x: int, y: int) -> bool {
    let cs = b.spec_cells();
    ||| (px + cs[0].x == x && py + cs[0].y == y)
    ||| (px + cs[1].x == x && py + cs[1].y == y)
    ||| (px + cs[2].x == x && py + cs[2].y == y)
    ||| (px + cs[3].x == x && py + cs[3].y == y)
}

/// The board after baking piece `b`, anchored at `(px, py)`, into it.
pub open spec fn settle_board(
    board: Seq<Option<BlockType>>,
    w: int,
    b: Block,
    px: int,
    py: int,
) -> Seq<Option<BlockType>> {
    Seq::new(
        board.len(),
        |j: int|
            {
                let y = j / w;
                let x = j % w;
                if piece_covers(b, px, py, x, y) {
                    Some(b.block_type)
                } else {
                    board[j]
                }
            },
    )
}

/// A completely occupied row in a row-major board of width `w`.
pub open spec fn row_full_in(board: Seq<Option<BlockType>>, w: int, row: int) -> bool {
    forall|x: int| 0 <= x < w ==> (#[trigger] board[row * w + x]) is Some
}

/// The board after clearing `row`: every row above it shifts down one and
/// the top row becomes empty; rows below `row` keep their cells.
pub open spec fn apply_clear(board: Seq<Option<BlockType>>, w: int, row: int) -> Seq<
    Option<BlockType>,
> {
    Seq::new(
        board.len(),
        |j: int|
            {
                let y = j / w;
                let x = j % w;
                if y == 0 {
                    None
                } else if y <= row {
                    board[(y - 1) * w + x]
                } else {
                    board[j]
                }
            },
    )
}

/// Whether some cell of `b` lies in relative row `i` of its 4-by-4 grid.
pub open spec fn piece_spans_row(b: Block, i: int) -> bool {
    let cs = b.spec_cells();
    cs[0].y == i || cs[1].y == i || cs[2].y == i || cs[3].y == i
}

/// The board after the settle's row sweep has processed relative rows
/// `0 .. i`: each spanned row that was full in the board as settled has been
/// cleared, topmost rows first.
pub open spec fn after_clears(
    board: Seq<Option<BlockType>>,
    w: int,
    b: Block,
    start: int,
    i: int,
) -> Seq<Option<BlockType>>
    decreases i,
{
    if i <= 0 {
        board
    } else {
        let prev = after_clears(board, w, b, start, i - 1);
        if piece_spans_row(b, i - 1) && row_full_in(board, w, start + i - 1) {
            apply_clear(prev, w, start + i - 1)
        } else {
            prev
        }
    }
}

/// How many of the relative rows `0 .. i` the settle's row sweep clears.
pub open spec fn cleared_count(
    board: Seq<Option<BlockType>>,
    w: int,
    b: Block,
    start: int,
    i: int,
) -> int
    decreases i,
{
    if i <= 0 {
        0
    } else {
        cleared_count(board, w, b, start, i - 1) + if piece_spans_row(b, i - 1) && row_full_in(
            board,
            w,
            start + i - 1,
        ) {
            1int
        } else {
            0int
        }
    }
}

/// Decomposes a row-major index into its column and row.
proof fn lemma_rowmajor_decompose(w: int, h: int, j: int)
    requires
        1 <= w,
        0 <= h,
        0 <= j < w * h,
    ensures
        0 <= j % w < w,
        0 <= j / w < h,
        j == (j / w) * w + (j % w),
{
    vstd::arithmetic::div_mod::lemma_fundamental_div_mod(j, w);
    vstd::arithmetic::div_mod::lemma_mod_bound(j, w);
    let q = j / w;
    let r = j % w;
    assert(q * w == w * q) by (nonlinear_arith);
    assert(0 <= q < h) by (nonlinear_arith)
        requires
            j == w * q + r,
            0 <= r < w,
            0 <= j < w * h,
            1 <= w,
            0 <= h,
    ;
}

/// Clearing rows during the settle sweep leaves every row at or below the
/// sweep's frontier unchanged.
proof fn lemma_after_clears_high_rows(
    board: Seq<Option<BlockType>>,
    w: int,
    h: int,
    b: Block,
    start: int,
    i: int,
)
    requires
        1 <= w,
        0 <= h,
        board.len() == w * h,
        0 <= start,
    ensures
        after_clears(board, w, b, start, i).len() == board.len(),
        forall|x: int, y: int|
            0 <= x < w && start + i <= y && y < h ==> #[trigger] after_clears(
                board,
                w,
                b,
                start,
                i,
            )[y * w + x] == board[y * w + x],
    decreases i,
{
    if i <= 0 {
    } else {
        lemma_after_clears_high_rows(board, w, h, b, start, i - 1);
        let prev = after_clears(board, w, b, start, i - 1);
        let cur = after_clears(board, w, b, start, i);
        if piece_spans_row(b, i - 1) && row_full_in(board, w, start + i - 1) {
            assert forall|x: int, y: int|
                0 <= x < w && start + i <= y && y < h implies #[trigger] cur[y * w + x] == board[y
                * w + x] by {
                lemma_grid_index(w, h, x, y);
                lemma_rowmajor_decompose(w, h, y * w + x);
                vstd::arithmetic::div_mod::lemma_fundamental_div_mod_converse(y * w + x, w, y, x);
                assert(cur[y * w + x] == prev[y * w + x]);
            }
        }
    }
}

/// A row that is complete right after the piece settles is one the piece
/// spans: settling adds cells only where the piece covers, and no row was
/// complete before.
proof fn lemma_settle_full_rows_spanned(
    pre: Seq<Option<BlockType>>,
    w: int,
    h: int,
    b: Block,
    px: int,
    py: int,
)
    requires
        1 <= w,
        1 <= h,
        pre.len() == w * h,
        forall|row: int| 0 <= row < h ==> !row_full_in(pre, w, row),
    ensures
        forall|row: int|
            0 <= row < h && #[trigger] row_full_in(settle_board(pre, w, b, px, py), w, row)
                ==> piece_spans_row(b, row - py),
{
    let settled = settle_board(pre, w, b, px, py);
    assert forall|row: int|
        0 <= row < h && #[trigger] row_full_in(settled, w, row) implies piece_spans_row(
        b,
        row - py,
    ) by {
        // Some cell of the row was empty before the settle and is occupied
        // now, so the piece covers it.
        assert(!row_full_in(pre, w, row));
        let x0 = choose|x: int| 0 <= x < w && !((#[trigger] pre[row * w + x]) is Some);
        lemma_grid_index(w, h, x0, row);
        vstd::arithmetic::div_mod::lemma_fundamental_div_mod_converse(row * w + x0, w, row, x0);
        assert(settled[row * w + x0] is Some);
        assert(piece_covers(b, px, py, x0, row));
    }
}

/// Sweeping the spanned rows restores the no-complete-row invariant: a row
/// still complete after processing relative rows `0 .. i` is a spanned,
/// complete row the sweep has not reached yet.
proof fn lemma_after_clears_no_full(
    board: Seq<Option<BlockType>>,
    w: int,
    h: int,
    b: Block,
    start: int,
    i: int,
)
    requires
        1 <= w,
        0 <= h,
        board.len() == w * h,
        0 <= start,
        forall|row: int|
            0 <= row < h && #[trigger] row_full_in(board, w, row) ==> piece_spans_row(
                b,
                row - start,
            ),
    ensures
        forall|row: int|
            0 <= row < h && #[trigger] row_full_in(after_clears(board, w, b, start, i), w, row)
                ==> piece_spans_row(b, row - start) && row >= start + i && row_full_in(
                board,
                w,
                row,
            ),
    decreases i,
{
    if i <= 0 {
    } else {
        lemma_after_clears_no_full(board, w, h, b, start, i - 1);
        lemma_after_clears_high_rows(board, w, h, b, start, i - 1);
        let prev = after_clears(board, w, b, start, i - 1);
        let cur = after_clears(board, w, b, start, i);
        let r = start + i - 1;
        if piece_spans_row(b, i - 1) && row_full_in(board, w, r) {
            assert forall|row: int|
                0 <= row < h && #[trigger] row_full_in(cur, w, row) implies piece_spans_row(
                b,
                row - start,
            ) && row >= start + i && row_full_in(board, w, row) by {
                if row == 0 {
                    // the cleared row has bubbled to the top, which is empty
                    lemma_grid_index(w, h, 0, 0);
                    vstd::arithmetic::div_mod::lemma_fundamental_div_mod_converse(0, w, 0, 0);
                    assert(cur[0] is None);
                    assert(cur[0 * w + 0] is Some);
                } else if row <= r {
                    // this row now holds the row above it from before the
                    // clear, which the sweep had already left incomplete
                    assert forall|x: int|
                        0 <= x < w implies (#[trigger] prev[(row - 1) * w + x]) is Some by {
                        lemma_grid_index(w, h, x, row);
                        vstd::arithmetic::div_mod::lemma_fundamental_div_mod_converse(
                            row * w + x,
                            w,
                            row,
                            x,
                        );
                        assert(cur[row * w + x] is Some);
                        lemma_grid_index(w, h, x, row - 1);
                    }
                    assert(row_full_in(prev, w, row - 1));
                } else {
                    // rows below the cleared one are untouched
                    assert forall|x: int|
                        0 <= x < w implies (#[trigger] prev[row * w + x]) is Some by {
                        lemma_grid_index(w, h, x, row);
                        vstd::arithmetic::div_mod::lemma_fundamental_div_mod_converse(
                            row * w + x,
                            w,
                            row,
                            x,
                        );
                        assert(cur[row * w + x] is Some);
                    }
                    assert(row_full_in(prev, w, row));
                }
            }
        } else {
            assert forall|row: int|
                0 <= row < h && #[trigger] row_full_in(cur, w, row) implies piece_spans_row(
                b,
                row - start,
            ) && row >= start + i && row_full_in(board, w, row) by {
                assert(row_full_in(prev, w, row));
            }
        }
    }
}

impl<R: RangeRng> GameState<R> {
    /// All state components except the settled board agree between `pre`
    /// and `post`.
    pub open spec fn same_except_board(pre: Self, post: Self) -> bool {
        &&& post.spec_width() == pre.spec_width()
        &&& post.spec_height() == pre.spec_height()
        &&& post.spec_active_block() == pre.spec_active_block()
        &&& post.spec_active_pos() == pre.spec_active_pos()
        &&& post.spec_next_block() == pre.spec_next_block()
        &&& post.spec_phase() == pre.spec_phase()
        &&& post.spec_score() == pre.spec_score()
        &&& post.spec_line_score() == pre.spec_line_score()
        &&& post.spec_time_ms() == pre.spec_time_ms()
        &&& post.spec_rng() == pre.spec_rng()
    }

    /// Bakes the active piece's four cells into the settled board. The
    /// piece must be entirely on the board (its anchor row at or below row
    /// 0) and must not overlap any settled cell.
    fn settle_active_block(&mut self)
        requires
            old(self).board_shape_ok(),
            old(self).piece_in_bounds(
                old(self).spec_active_block(),
                old(self).spec_active_pos().x as int,
                old(self).spec_active_pos().y as int,
            ),
            0 <= old(self).spec_active_pos().y,
            !old(self).piece_collides_at(
                old(self).spec_active_block(),
                old(self).spec_active_pos().x as int,
                old(self).spec_active_pos().y as int,
            ),
        ensures
            final(self).board_shape_ok(),
            Self::same_except_board(*old(self), *final(self)),
            forall|x: int, y: int|
                0 <= x < final(self).spec_width() && 0 <= y < final(self).spec_height()
                    ==> #[trigger] final(self).cell_at(x, y) == (if piece_covers(
                    old(self).spec_active_block(),
                    old(self).spec_active_pos().x as int,
                    old(self).spec_active_pos().y as int,
                    x,
                    y,
                ) {
                    Some(old(self).spec_active_block().block_type)
                } else {
                    old(self).cell_at(x, y)
                }),
    {
        proof {
            lemma_cells_in_bbox(self.spec_active_block());
            lemma_cells_distinct(self.spec_active_block());
            self.lemma_shape_ranges();
        }
        let cells = translate_cells(
            &self.active_block.cells(),
            self.active_block_pos.y,
            self.active_block_pos.x,
        );
        let bt = self.active_block.block_type;
        let i0 = self.cell_index(cells[0].x, cells[0].y);
        self.settled_cells.set(i0, Some(bt));
        let i1 = self.cell_index(cells[1].x, cells[1].y);
        self.settled_cells.set(i1, Some(bt));
        let i2 = self.cell_index(cells[2].x, cells[2].y);
        self.settled_cells.set(i2, Some(bt));
        let i3 = self.cell_index(cells[3].x, cells[3].y);
        self.settled_cells.set(i3, Some(bt));
        proof {
            let w = self.spec_width();
            let h = self.spec_height();
            let pb = self.spec_active_block();
            let px = self.spec_active_pos().x as int;
            let py = self.spec_active_pos().y as int;
            let cs = pb.spec_cells();
            assert forall|x: int, y: int| 0 <= x < w && 0 <= y < h implies #[trigger] self.cell_at(
                x,
                y,
            ) == (if piece_covers(pb, px, py, x, y) {
                Some(pb.block_type)
            } else {
                old(self).cell_at(x, y)
            }) by {
                lemma_grid_index(w, h, x, y);
                lemma_grid_index_injective(w, h, x, y, px + cs[0].x, py + cs[0].y);
                lemma_grid_index_injective(w, h, x, y, px + cs[1].x, py + cs[1].y);
                lemma_grid_index_injective(w, h, x, y, px + cs[2].x, py + cs[2].y);
                lemma_grid_index_injective(w, h, x, y, px + cs[3].x, py + cs[3].y);
            }
        }
    }

    /// Bounds on board dimensions alone, for arithmetic side conditions.
    proof fn lemma_shape_ranges(self)
        requires
            self.board_shape_ok(),
        ensures
            4 * self.spec_width() <= i32::MAX,
            4 * self.spec_height() <= i32::MAX,
    {
        assert(4 * self.spec_width() <= self.spec_width() * self.spec_height() && 4
            * self.spec_height() <= self.spec_width() * self.spec_height()) by (nonlinear_arith)
            requires
                4 <= self.spec_width(),
                4 <= self.spec_height(),
        ;
    }

    /// Counts the settled cells in `row` and, when the row is complete,
    /// clears it and shifts every row above it down by one. Returns whether
    /// the row was cleared.
    fn try_clear_row(&mut self, row: i32) -> (r: bool)
        requires
            old(self).board_shape_ok(),
            0 <= row < old(self).spec_height(),
        ensures
            final(self).board_shape_ok(),
            Self::same_except_board(*old(self), *final(self)),
            r == row_full_in(old(self).board(), old(self).spec_width(), row as int),
            r ==> final(self).board() == apply_clear(
                old(self).board(),
                old(self).spec_width(),
                row as int,
            ),
            !r ==> final(self).board() == old(self).board(),
    {
        let ghost w = self.spec_width();
        let ghost h = self.spec_height();
        let mut cells_in_row_count: usize = 0;
        let mut x: i32 = 0;
        while x < self.board_width
            invariant
                self == old(self),
                0 <= x <= w,
                w == self.spec_width(),
                cells_in_row_count <= x,
                0 <= row < self.spec_height(),
                self.board_shape_ok(),
                cells_in_row_count == x <==> (forall|xx: int|
                    0 <= xx < x ==> self.occupied(xx, row as int)),
            decreases w - x,
        {
            if self.is_cell_occupied(x, row) {
                cells_in_row_count = cells_in_row_count + 1;
            }
            x = x + 1;
        }
        proof {
            assert forall|xx: int| 0 <= xx < w implies (self.occupied(xx, row as int)
                <==> (#[trigger] self.board()[row as int * w + xx]) is Some) by {
                lemma_grid_index(w, h, xx, row as int);
            }
        }
        if cells_in_row_count != (self.board_width as usize) {
            return false;
        }
        // The row is complete: shift every row above it down by one, from
        // the cleared row upward so each source row is read before it is
        // overwritten, then empty the top row.
        let mut y: i32 = row;
        while y >= 1
            invariant
                0 <= y <= row,
                row < h,
                w == self.spec_width(),
                h == self.spec_height(),
                self.board_shape_ok(),
                Self::same_except_board(*old(self), *self),
                forall|xx: int, yy: int|
                    0 <= xx < w && y < yy <= row ==> #[trigger] self.cell_at(xx, yy) == old(
                        self,
                    ).cell_at(xx, yy - 1),
                forall|xx: int, yy: int|
                    0 <= xx < w && (0 <= yy <= y || row < yy < h) ==> #[trigger] self.cell_at(
                        xx,
                        yy,
                    ) == old(self).cell_at(xx, yy),
            decreases y,
        {
            let mut x: i32 = 0;
            while x < self.board_width
                invariant
                    1 <= y <= row,
                    row < h,
                    0 <= x <= w,
                    w == self.spec_width(),
                    h == self.spec_height(),
                    self.board_shape_ok(),
                    Self::same_except_board(*old(self), *self),
                    forall|xx: int, yy: int|
                        0 <= xx < w && y < yy <= row ==> #[trigger] self.cell_at(xx, yy) == old(
                            self,
                        ).cell_at(xx, yy - 1),
                    forall|xx: int|
                        0 <= xx < x ==> #[trigger] self.cell_at(xx, y as int) == old(self).cell_at(
                            xx,
                            y as int - 1,
                        ),
                    forall|xx: int|
                        x <= xx < w ==> #[trigger] self.cell_at(xx, y as int) == old(self).cell_at(
                            xx,
                            y as int,
                        ),
                    forall|xx: int, yy: int|
                        0 <= xx < w && (0 <= yy < y || row < yy < h) ==> #[trigger] self.cell_at(
                            xx,
                            yy,
                        ) == old(self).cell_at(xx, yy),
                decreases w - x,
            {
                let ghost pre = *self;
                let src_index = self.cell_index(x, y - 1);
                let value = self.settled_cells[src_index];
                let dst_index = self.cell_index(x, y);
                self.settled_cells.set(dst_index, value);
                proof {
                    assert(value == pre.cell_at(x as int, y as int - 1));
                    assert(self.cell_at(x as int, y as int) == value);
                    assert forall|xx: int, yy: int|
                        0 <= xx < w && 0 <= yy < h && !(yy == y as int && xx == x as int) implies
                        #[trigger] self.cell_at(xx, yy) == pre.cell_at(xx, yy) by {
                        lemma_grid_index(w, h, xx, yy);
                        lemma_grid_index_injective(w, h, xx, yy, x as int, y as int);
                    }
                }
                x = x + 1;
            }
            y = y - 1;
        }
        // Empty the top row: the cleared row has bubbled to the top.
        let mut x: i32 = 0;
        while x < self.board_width
            invariant
                0 <= x <= w,
                row < h,
                0 <= row,
                w == self.spec_width(),
                h == self.spec_height(),
                self.board_shape_ok(),
                Self::same_except_board(*old(self), *self),
                forall|xx: int, yy: int|
                    0 <= xx < w && 0 < yy <= row ==> #[trigger] self.cell_at(xx, yy) == old(
                        self,
                    ).cell_at(xx, yy - 1),
                forall|xx: int, yy: int|
                    0 <= xx < w && row < yy < h ==> #[trigger] self.cell_at(xx, yy) == old(
                        self,
                    ).cell_at(xx, yy),
                forall|xx: int|
                    0 <= xx < x ==> (#[trigger] self.cell_at(xx, 0)) is None,
                forall|xx: int|
                    x <= xx < w ==> #[trigger] self.cell_at(xx, 0) == old(self).cell_at(xx, 0),
            decreases w - x,
        {
            let ghost pre = *self;
            let dst_index = self.cell_index(x, 0);
            self.settled_cells.set(dst_index, None);
            proof {
                assert(self.cell_at(x as int, 0) is None);
                assert forall|xx: int, yy: int|
                    0 <= xx < w && 0 <= yy < h && !(yy == 0 && xx == x as int) implies
                    #[trigger] self.cell_at(xx, yy) == pre.cell_at(xx, yy) by {
                    lemma_grid_index(w, h, xx, yy);
                    lemma_grid_index_injective(w, h, xx, yy, x as int, 0);
                }
            }
            x = x + 1;
        }
        proof {
            let result = apply_clear(old(self).board(), w, row as int);
            assert forall|j: int| 0 <= j < self.board().len() implies self.board()[j] == result[j]
                by {
                lemma_rowmajor_decompose(w, h, j);
                let yy = j / w;
                let xx = j % w;
                vstd::arithmetic::div_mod::lemma_fundamental_div_mod_converse(j, w, yy, xx);
                assert(self.cell_at(xx, yy) == self.board()[j]);
                if 0 < yy <= row {
                    lemma_grid_index(w, h, xx, yy - 1);
                }
            }
            assert(self.board() =~= result);
        }
        true
    }

    /// Checks each row the just-settled piece spans, topmost first, and
    /// clears the complete ones. Returns how many rows were cleared.
    fn clear_rows(&mut self, start_row: i32) -> (r: usize)
        requires
            old(self).board_shape_ok(),
            0 <= start_row,
            start_row as int + old(self).spec_active_block().spec_top() + old(
                self,
            ).spec_active_block().spec_height() <= old(self).spec_height(),
        ensures
            final(self).board_shape_ok(),
            Self::same_except_board(*old(self), *final(self)),
            r == cleared_count(
                old(self).board(),
                old(self).spec_width(),
                old(self).spec_active_block(),
                start_row as int,
                4,
            ),
            final(self).board() == after_clears(
                old(self).board(),
                old(self).spec_width(),
                old(self).spec_active_block(),
                start_row as int,
                4,
            ),
            r <= 4,
    {
        let ghost w = self.spec_width();
        let ghost h = self.spec_height();
        let ghost orig = self.board();
        let ghost pb = self.spec_active_block();
        proof {
            lemma_cells_in_bbox(pb);
            self.lemma_shape_ranges();
        }
        let cs = self.active_block.cells();
        let mut rows_cleared: usize = 0;
        let mut i: i32 = 0;
        while i < 4
            invariant
                0 <= i <= 4,
                w == self.spec_width(),
                h == self.spec_height(),
                orig == old(self).board(),
                pb == old(self).spec_active_block(),
                cs@ == pb.spec_cells(),
                0 <= start_row,
                start_row as int + pb.spec_top() + pb.spec_height() <= h,
                orig.len() == w * h,
                4 <= w,
                4 <= h,
                self.board_shape_ok(),
                Self::same_except_board(*old(self), *self),
                self.board() == after_clears(orig, w, pb, start_row as int, i as int),
                rows_cleared == cleared_count(orig, w, pb, start_row as int, i as int),
                rows_cleared <= i,
            decreases 4 - i,
        {
            proof {
                lemma_cells_in_bbox(pb);
                lemma_after_clears_high_rows(orig, w, h, pb, start_row as int, i as int);
            }
            let spanned = cs[0].y == i || cs[1].y == i || cs[2].y == i || cs[3].y == i;
            if spanned {
                let ghost pre_board = self.board();
                let row = start_row + i;
                proof {
                    // The sweep has only touched rows above `row`, so the
                    // row's completeness agrees with the board as settled.
                    assert forall|x: int| 0 <= x < w implies (#[trigger] self.board()[row as int
                        * w + x]) == orig[row as int * w + x] by {
                        lemma_grid_index(w, h, x, row as int);
                    }
                    if row_full_in(self.board(), w, row as int) {
                        assert forall|x: int| 0 <= x < w implies (#[trigger] orig[row as int * w
                            + x]) is Some by {
                            assert(self.board()[row as int * w + x] is Some);
                        }
                    }
                    if row_full_in(orig, w, row as int) {
                        assert forall|x: int| 0 <= x < w implies (#[trigger] self.board()[row as int
                            * w + x]) is Some by {
                            assert(orig[row as int * w + x] is Some);
                        }
                    }
                }
                let row_was_cleared = self.try_clear_row(row);
                if row_was_cleared {
                    rows_cleared = rows_cleared + 1;
                }
            }
            i = i + 1;
        }
        rows_cleared
    }

    /// The points awarded for the rows cleared by one settle. A four-cell
    /// piece can never clear more than four rows at once.
    fn calculate_clear_score(num_cleared_lines: usize) -> (r: usize)
        requires
            num_cleared_lines <= 4,
        ensures
            r == spec_clear_score(num_cleared_lines as int),
    {
        match num_cleared_lines {
            0 => 0,
            1 => 40,
            2 => 100,
            3 => 300,
            4 => 1200,
            _ => vstd::pervasive::unreached(),
        }
    }
}

impl<R: RangeRng> GameState<R> {
    /// All state components except the clock remainder agree between `pre`
    /// and `post`.
    pub open spec fn same_except_time(pre: Self, post: Self) -> bool {
        &&& post.spec_width() == pre.spec_width()
        &&& post.spec_height() == pre.spec_height()
        &&& post.board() == pre.board()
        &&& post.spec_active_block() == pre.spec_active_block()
        &&& post.spec_active_pos() == pre.spec_active_pos()
        &&& post.spec_next_block() == pre.spec_next_block()
        &&& post.spec_phase() == pre.spec_phase()
        &&& post.spec_score() == pre.spec_score()
        &&& post.spec_line_score() == pre.spec_line_score()
        &&& post.spec_rng() == pre.spec_rng()
    }

    /// What one logical tick does to everything but the clock remainder.
    ///
    /// From `StartNextBlock`, the preview piece becomes active, spawned
    /// horizontally centered with its bottom row just above row 0, and a
    /// fresh preview piece is drawn. From `MoveBlock`, a piece that has not
    /// landed drops one row; a piece that landed still above row 0 ends the
    /// game; otherwise the piece is baked into the board, its complete
    /// spanned rows are cleared, and the cleared rows and their score are
    /// added, saturating. From `GameOver`, nothing changes.
    pub open spec fn step_rel(pre: Self, post: Self) -> bool {
        &&& post.spec_width() == pre.spec_width()
        &&& post.spec_height() == pre.spec_height()
        &&& post.spec_score() >= pre.spec_score()
        &&& post.spec_line_score() >= pre.spec_line_score()
        &&& pre.spec_phase() is GameOver ==> Self::same_except_time(pre, post)
        &&& pre.spec_phase() is StartNextBlock ==> {
            &&& post.board() == pre.board()
            &&& post.spec_score() == pre.spec_score()
            &&& post.spec_line_score() == pre.spec_line_score()
            &&& post.spec_phase() is MoveBlock
            &&& post.spec_active_block() == pre.spec_next_block()
            &&& post.spec_active_pos().x == (pre.spec_width()
                - pre.spec_next_block().spec_width()) / 2 - pre.spec_next_block().spec_left()
            &&& post.spec_active_pos().y == -pre.spec_next_block().spec_height()
            &&& post.spec_next_block().rot == Rotation::Rot0
            &&& exists|n: usize|
                1 <= n < 8 && (#[trigger] pre.spec_rng().spec_may_yield(1, 8, n))
                    && post.spec_next_block() == Block::spec_from_number(n as int)
        }
        &&& pre.spec_phase() is MoveBlock ==> {
            let b = pre.spec_active_block();
            let px = pre.spec_active_pos().x as int;
            let py = pre.spec_active_pos().y as int;
            let w = pre.spec_width();
            if pre.spec_landed(b, px, py) {
                if py < 0 {
                    &&& post.spec_phase() is GameOver
                    &&& post.board() == pre.board()
                    &&& post.spec_score() == pre.spec_score()
                    &&& post.spec_line_score() == pre.spec_line_score()
                    &&& post.spec_active_block() == b
                    &&& post.spec_active_pos() == pre.spec_active_pos()
                    &&& post.spec_next_block() == pre.spec_next_block()
                    &&& post.spec_rng() == pre.spec_rng()
                } else {
                    let settled = settle_board(pre.board(), w, b, px, py);
                    let n = cleared_count(settled, w, b, py, 4);
                    &&& post.spec_phase() is StartNextBlock
                    &&& post.spec_active_block() == b
                    &&& post.spec_active_pos() == pre.spec_active_pos()
                    &&& post.spec_next_block() == pre.spec_next_block()
                    &&& post.spec_rng() == pre.spec_rng()
                    &&& post.board() == after_clears(settled, w, b, py, 4)
                    &&& post.spec_score() == sat_add(pre.spec_score(), spec_clear_score(n))
                    &&& post.spec_line_score() == sat_add(pre.spec_line_score(), n)
                }
            } else {
                &&& post.board() == pre.board()
                &&& post.spec_score() == pre.spec_score()
                &&& post.spec_line_score() == pre.spec_line_score()
                &&& post.spec_phase() == pre.spec_phase()
                &&& post.spec_next_block() == pre.spec_next_block()
                &&& post.spec_rng() == pre.spec_rng()
                &&& post.spec_active_block() == b
                &&& post.spec_active_pos().x == px
                &&& post.spec_active_pos().y == py + 1
            }
        }
    }

    /// One full logical tick: a tick period is consumed from the clock
    /// remainder and the state machine takes one step.
    pub open spec fn tick_rel(pre: Self, post: Self) -> bool {
        &&& pre.spec_time_ms() >= pre.spec_move_period()
        &&& post.spec_time_ms() == pre.spec_time_ms() - pre.spec_move_period()
        &&& Self::step_rel(pre, post)
    }

    /// The state machine's step relation reads nothing but the clock from
    /// its pre-state's clock, so states equal up to the clock step to the
    /// same post-states.
    proof fn lemma_step_rel_ignores_time(a: Self, b: Self, post: Self)
        requires
            Self::same_except_time(a, b),
            Self::step_rel(b, post),
        ensures
            Self::step_rel(a, post),
    {
    }

    /// A finished game stays finished: a tick taken from `GameOver` consumes
    /// clock time and changes nothing else, so the settled cells, the score
    /// and the line total never change again.
    pub proof fn lemma_game_over_is_final(pre: Self, post: Self)
        requires
            Self::tick_rel(pre, post),
            pre.spec_phase() is GameOver,
        ensures
            Self::same_except_time(pre, post),
            post.spec_phase() is GameOver,
            post.board() == pre.board(),
            post.spec_score() == pre.spec_score(),
    {
    }

    /// The current tick period: the base period shortened per level step,
    /// plateauing at the shortest period.
    fn get_move_period(&self) -> (r: u64)
        ensures
            r == self.spec_move_period(),
            100 <= r <= 250,
    {
        let level = self.level();
        let clamped_level_index: u64 = if level - 1 < 10 {
            (level - 1) as u64
        } else {
            10
        };
        250 - 15 * clamped_level_index
    }

    /// Consumes one tick period from the accumulated remainder if it covers
    /// one; says whether a logical tick is due.
    fn consume_next_tick(&mut self) -> (r: bool)
        ensures
            Self::same_except_time(*old(self), *final(self)),
            r == (old(self).spec_time_ms() >= old(self).spec_move_period()),
            r ==> final(self).spec_time_ms() == old(self).spec_time_ms() - old(
                self,
            ).spec_move_period(),
            !r ==> *final(self) == *old(self),
    {
        let move_period = self.get_move_period();
        if self.time_ms >= move_period {
            self.time_ms = self.time_ms - move_period;
            return true;
        }
        false
    }

    /// Advances the state machine by one logical tick.
    ///
    /// `StartNextBlock` promotes the preview piece to active, draws a new
    /// preview, and spawns the active piece horizontally centered with its
    /// bottom row just above row 0. `MoveBlock` drops the piece one row, or,
    /// once it has landed, either ends the game (when the piece still sits
    /// above row 0) or settles it, clears the complete spanned rows, and
    /// adds the cleared rows and their score, saturating. `GameOver` changes
    /// nothing.
    fn step_tick(&mut self)
        requires
            old(self).state_ok(),
        ensures
            final(self).state_ok(),
            final(self).spec_time_ms() == old(self).spec_time_ms(),
            Self::step_rel(*old(self), *final(self)),
            old(self).spec_phase() is GameOver ==> *final(self) == *old(self),
    {
        match self.game_phase {
            // Promote the preview piece and spawn it above the board.
            GamePhase::StartNextBlock => {
                let ghost rng_before = self.block_type_rng;
                let new_next_block = Block::random(&mut self.block_type_rng);
                let new_active_block = self.next_block;
                self.next_block = new_next_block;
                proof {
                    lemma_cells_in_bbox(new_active_block);
                }
                let start_col = (self.board_width - new_active_block.width()) / 2
                    - new_active_block.left();
                let start_row = -new_active_block.height();
                self.active_block = new_active_block;
                self.active_block_pos = Vec2 { x: start_col, y: start_row };
                self.game_phase = GamePhase::MoveBlock;
                proof {
                    let n0: usize = choose|n: usize|
                        1 <= n < 8 && (#[trigger] rng_before.spec_may_yield(1, 8, n))
                            && new_next_block == Block::spec_from_number(n as int);
                    assert(1 <= n0 < 8 && old(self).spec_rng().spec_may_yield(1, 8, n0)
                        && self.spec_next_block() == Block::spec_from_number(n0 as int));
                }
            },
            // Drop the active piece, or resolve its landing.
            GamePhase::MoveBlock => {
                if self.has_active_block_landed() {
                    let is_block_above_board = self.active_block_pos.y < 0;
                    if is_block_above_board {
                        self.game_phase = GamePhase::GameOver;
                    } else {
                        let ghost pre = *self;
                        let ghost w = self.spec_width();
                        let ghost h = self.spec_height();
                        let ghost b = self.spec_active_block();
                        let ghost px = self.spec_active_pos().x as int;
                        let ghost py = self.spec_active_pos().y as int;
                        self.settle_active_block();
                        proof {
                            let settled = settle_board(pre.board(), w, b, px, py);
                            assert forall|j: int| 0 <= j < self.board().len() implies self.board()[j]
                                == settled[j] by {
                                lemma_rowmajor_decompose(w, h, j);
                                let yy = j / w;
                                let xx = j % w;
                                vstd::arithmetic::div_mod::lemma_fundamental_div_mod_converse(
                                    j,
                                    w,
                                    yy,
                                    xx,
                                );
                                assert(self.cell_at(xx, yy) == self.board()[j]);
                            }
                            assert(self.board() =~= settled);
                        }
                        let num_rows_cleared = self.clear_rows(self.active_block_pos.y);
                        let points = Self::calculate_clear_score(num_rows_cleared);
                        self.score = if self.score <= usize::MAX - points {
                            self.score + points
                        } else {
                            usize::MAX
                        };
                        self.line_score = if self.line_score <= usize::MAX - num_rows_cleared {
                            self.line_score + num_rows_cleared
                        } else {
                            usize::MAX
                        };
                        self.game_phase = GamePhase::StartNextBlock;
                        proof {
                            // The sweep cleared every row the piece
                            // completed, so no complete row remains.
                            let settled = settle_board(pre.board(), w, b, px, py);
                            lemma_settle_full_rows_spanned(pre.board(), w, h, b, px, py);
                            lemma_after_clears_no_full(settled, w, h, b, py, 4);
                            lemma_cells_in_grid(b);
                            assert forall|row: int| 0 <= row < h implies !row_full_in(
                                self.board(),
                                w,
                                row,
                            ) by {
                                if row_full_in(self.board(), w, row) {
                                    assert(piece_spans_row(b, row - py) && row >= py + 4);
                                }
                            }
                        }
                    }
                } else {
                    self.move_active_block_down();
                }
            },
            // The game is over; nothing changes.
            GamePhase::GameOver => (),
        }
    }

    /// Advances the game by the elapsed wall-clock time, consuming one
    /// logical tick per elapsed tick period. A single call may perform
    /// several ticks; the unconsumed remainder is kept for the next call.
    /// Once the game is over, further updates change nothing but the clock.
    pub fn update(&mut self, delta_ms: u64)
        requires
            old(self).inv(),
            delta_ms <= u64::MAX - 250,
        ensures
            final(self).inv(),
            final(self).spec_time_ms() < final(self).spec_move_period(),
            final(self).spec_width() == old(self).spec_width(),
            final(self).spec_height() == old(self).spec_height(),
            final(self).spec_score() >= old(self).spec_score(),
            final(self).spec_line_score() >= old(self).spec_line_score(),
            final(self).spec_level() >= old(self).spec_level(),
            old(self).spec_phase() is GameOver ==> Self::same_except_time(
                *old(self),
                *final(self),
            ),
            old(self).spec_time_ms() + delta_ms < old(self).spec_move_period() ==> {
                &&& Self::same_except_time(*old(self), *final(self))
                &&& final(self).spec_time_ms() == old(self).spec_time_ms() + delta_ms
            },
            exists|chain: Seq<GameState<R>>|
                {
                    &&& chain.len() >= 1
                    &&& Self::same_except_time(*old(self), chain[0])
                    &&& chain[0].spec_time_ms() == old(self).spec_time_ms() + delta_ms
                    &&& chain[chain.len() - 1] == *final(self)
                    &&& forall|i: int|
                        0 <= i < chain.len() - 1 ==> #[trigger] Self::tick_rel(
                            chain[i],
                            chain[i + 1],
                        )
                },
    {
        self.time_ms = self.time_ms + delta_ms;
        let ghost mut chain: Seq<GameState<R>> = seq![*self];
        loop
            invariant
                self.state_ok(),
                self.spec_width() == old(self).spec_width(),
                self.spec_height() == old(self).spec_height(),
                self.spec_score() >= old(self).spec_score(),
                self.spec_line_score() >= old(self).spec_line_score(),
                0 <= self.spec_time_ms() <= old(self).spec_time_ms() + delta_ms,
                old(self).spec_phase() is GameOver ==> Self::same_except_time(
                    *old(self),
                    *self,
                ),
                old(self).spec_time_ms() + delta_ms < old(self).spec_move_period() ==> {
                    &&& Self::same_except_time(*old(self), *self)
                    &&& self.spec_time_ms() == old(self).spec_time_ms() + delta_ms
                },
                chain.len() >= 1,
                Self::same_except_time(*old(self), chain[0]),
                chain[0].spec_time_ms() == old(self).spec_time_ms() + delta_ms,
                chain[chain.len() - 1] == *self,
                forall|i: int|
                    0 <= i < chain.len() - 1 ==> #[trigger] Self::tick_rel(chain[i], chain[i + 1]),
            ensures
                self.spec_time_ms() < self.spec_move_period(),
            decreases self.spec_time_ms(),
        {
            let ghost before_tick = *self;
            if !self.consume_next_tick() {
                break ;
            }
            let ghost after_consume = *self;
            proof {
                vstd::arithmetic::div_mod::lemma_div_is_ordered(
                    old(self).spec_line_score(),
                    self.spec_line_score(),
                    5,
                );
            }
            self.step_tick();
            proof {
                Self::lemma_step_rel_ignores_time(before_tick, after_consume, *self);
                assert(Self::tick_rel(before_tick, *self));
                chain = chain.push(*self);
                assert(chain[chain.len() - 2] == before_tick);
            }
        }
        proof {
            vstd::arithmetic::div_mod::lemma_div_is_ordered(
                old(self).spec_line_score(),
                self.spec_line_score(),
                5,
            );
        }
    }
}

/// The number of occupied cells among the first `i` entries of a board.
pub open spec fn count_some(s: Seq<Option<BlockType>>, i: int) -> int
    decreases i,
{
    if i <= 0 {
        0
    } else {
        count_some(s, i - 1) + if s[i - 1] is Some {
            1int
        } else {
            0int
        }
    }
}

impl<R: RangeRng> GameState<R> {
    /// The number of settled cells on the board.
    pub open spec fn spec_settled_count(self) -> int {
        count_some(self.board(), self.board().len() as int)
    }

    /// A board seeded for tests: `board[y][x]` marks an occupied cell (all
    /// seeded cells carry the I shape tag), with the given active piece,
    /// position and scores, ready in the `MoveBlock` phase. Every seeded
    /// row must have a gap: a completely full row cannot survive a settle,
    /// so no reachable state holds one.
    pub fn make_from_seed(
        board: &[Vec<bool>],
        active_block: Block,
        active_block_pos: Vec2,
        score: usize,
        line_score: usize,
        block_type_rng: R,
    ) -> (game: Self)
        requires
            4 <= board@.len() <= i32::MAX,
            4 <= board@[0]@.len() <= i32::MAX,
            board@[0]@.len() * board@.len() <= i32::MAX,
            forall|i: int| 0 <= i < board@.len() ==> (#[trigger] board@[i])@.len()
                == board@[0]@.len(),
            forall|y: int|
                #![trigger board@[y]]
                0 <= y < board@.len() ==> exists|x: int|
                    0 <= x < board@[0]@.len() && !(#[trigger] board@[y]@[x]),
            0 <= active_block.spec_left() + active_block_pos.x,
            active_block.spec_left() + active_block_pos.x + active_block.spec_width()
                <= board@[0]@.len(),
            active_block_pos.y + active_block.spec_top() + active_block.spec_height()
                <= board@.len(),
            (forall|x: int, y: int|
                0 <= x < board@[0]@.len() && 0 <= y < board@.len() && piece_covers(
                    active_block,
                    active_block_pos.x as int,
                    active_block_pos.y as int,
                    x,
                    y,
                ) ==> !(#[trigger] board@[y]@[x])) || active_block_pos.y < 0,
        ensures
            game.inv(),
            game.spec_width() == board@[0]@.len(),
            game.spec_height() == board@.len(),
            game.spec_phase() is MoveBlock,
            game.spec_active_block() == active_block,
            game.spec_active_pos() == active_block_pos,
            game.spec_next_block() == (Block {
                rot: Rotation::Rot0,
                block_type: BlockType::I,
            }),
            game.spec_score() == score,
            game.spec_line_score() == line_score,
            game.spec_time_ms() == 0,
            forall|x: int, y: int|
                0 <= x < game.spec_width() && 0 <= y < game.spec_height()
                    ==> #[trigger] game.cell_at(x, y) == (if board@[y]@[x] {
                    Some(BlockType::I)
                } else {
                    None::<BlockType>
                }),
    {
        let width_usize: usize = board[0].len();
        let height_usize: usize = board.len();
        let ghost w = width_usize as int;
        let ghost h = height_usize as int;
        let mut settled_cells: Vec<Option<BlockType>> = Vec::new();
        let mut row: usize = 0;
        while row < height_usize
            invariant
                row <= h,
                w == width_usize as int,
                h == height_usize as int,
                w == board@[0]@.len(),
                h == board@.len(),
                4 <= w <= i32::MAX,
                4 <= h <= i32::MAX,
                w * h <= i32::MAX,
                forall|i: int| 0 <= i < h ==> (#[trigger] board@[i])@.len() == w,
                settled_cells@.len() == row * w,
                forall|xx: int, yy: int|
                    0 <= xx < w && 0 <= yy < row ==> #[trigger] settled_cells@[yy * w + xx] == (
                    if board@[yy]@[xx] {
                        Some(BlockType::I)
                    } else {
                        None::<BlockType>
                    }),
            decreases h - row,
        {
            proof {
                assert(row as int * w + w == (row as int + 1) * w) by (nonlinear_arith);
                assert(row as int * w + w <= h * w && h * w == w * h) by (nonlinear_arith)
                    requires
                        row as int + 1 <= h,
                        4 <= w,
                ;
            }
            let row_cells = &board[row];
            let mut col: usize = 0;
            while col < width_usize
                invariant
                    col <= w,
                    row < h,
                    w == width_usize as int,
                    h == height_usize as int,
                    w == board@[0]@.len(),
                    h == board@.len(),
                    4 <= w <= i32::MAX,
                    4 <= h <= i32::MAX,
                    row as int * w + w <= w * h,
                    forall|i: int| 0 <= i < h ==> (#[trigger] board@[i])@.len() == w,
                    row_cells@ == board@[row as int]@,
                    settled_cells@.len() == row * w + col,
                    forall|xx: int, yy: int|
                        0 <= xx < w && 0 <= yy < row ==> #[trigger] settled_cells@[yy * w + xx]
                            == (if board@[yy]@[xx] {
                            Some(BlockType::I)
                        } else {
                            None::<BlockType>
                        }),
                    forall|xx: int|
                        0 <= xx < col ==> #[trigger] settled_cells@[row as int * w + xx] == (
                        if board@[row as int]@[xx] {
                            Some(BlockType::I)
                        } else {
                            None::<BlockType>
                        }),
                decreases w - col,
            {
                if row_cells[col] {
                    settled_cells.push(Some(BlockType::I));
                } else {
                    settled_cells.push(None);
                }
                proof {
                    assert forall|xx: int, yy: int| 0 <= xx < w && 0 <= yy < row implies #[trigger] (
                    yy * w + xx) < row as int * w by {
                        assert(yy * w + xx < row as int * w) by (nonlinear_arith)
                            requires
                                0 <= xx < w,
                                0 <= yy,
                                yy < row as int,
                        ;
                    }
                }
                col = col + 1;
            }
            row = row + 1;
        }
        proof {
            assert(settled_cells@.len() == h * w);
            assert(h * w == w * h) by (nonlinear_arith);
        }
        let game = GameState {
            board_width: width_usize as i32,
            board_height: height_usize as i32,
            block_type_rng,
            settled_cells,
            next_block: Block::default(),
            active_block,
            active_block_pos,
            game_phase: GamePhase::MoveBlock,
            score,
            line_score,
            time_ms: 0,
        };
        proof {
            assert forall|x: int, y: int| 0 <= x < w && 0 <= y < h implies #[trigger] game.cell_at(
                x,
                y,
            ) == (if board@[y]@[x] {
                Some(BlockType::I)
            } else {
                None::<BlockType>
            }) by {
                lemma_grid_index(w, h, x, y);
            }
            assert forall|row: int| 0 <= row < h implies !row_full_in(game.board(), w, row) by {
                assert(board@[row]@.len() == w);
                let x0 = choose|x: int| 0 <= x < w && !(#[trigger] board@[row]@[x]);
                lemma_grid_index(w, h, x0, row);
                assert(game.cell_at(x0, row) is None);
                assert(game.board()[row * w + x0] is None);
            }
            if !(active_block_pos.y < 0) {
                assert(!game.piece_collides_at(
                    active_block,
                    active_block_pos.x as int,
                    active_block_pos.y as int,
                )) by {
                    lemma_cells_in_bbox(active_block);
                    let cs = active_block.spec_cells();
                    let px = active_block_pos.x as int;
                    let py = active_block_pos.y as int;
                    assert forall|k: int| 0 <= k < 4 implies !game.occupied(
                        px + (#[trigger] cs[k]).x,
                        py + cs[k].y,
                    ) by {
                        let cx = px + cs[k].x;
                        let cy = py + cs[k].y;
                        if 0 <= cx < w && 0 <= cy < h {
                            assert(piece_covers(active_block, px, py, cx, cy));
                            assert(!board@[cy]@[cx]);
                            lemma_grid_index(w, h, cx, cy);
                        }
                    }
                }
            }
        }
        game
    }

    /// Calls `op` on every settled cell, row by row, with its shape and
    /// board position.
    pub fn for_each_settled_piece<F: Fn(BlockType, Vec2)>(&self, op: F)
        requires
            self.board_shape_ok(),
            forall|bt: BlockType, v: Vec2|
                #![trigger call_requires(op, (bt, v))]
                0 <= v.x < self.spec_width() && 0 <= v.y < self.spec_height() && self.cell_at(
                    v.x as int,
                    v.y as int,
                ) == Some(bt) ==> call_requires(op, (bt, v)),
    {
        let mut row: i32 = 0;
        while row < self.board_height
            invariant
                self.board_shape_ok(),
                0 <= row,
                forall|bt: BlockType, v: Vec2|
                    #![trigger call_requires(op, (bt, v))]
                    0 <= v.x < self.spec_width() && 0 <= v.y < self.spec_height() && self.cell_at(
                        v.x as int,
                        v.y as int,
                    ) == Some(bt) ==> call_requires(op, (bt, v)),
            decreases self.spec_height() - row,
        {
            let mut col: i32 = 0;
            while col < self.board_width
                invariant
                    self.board_shape_ok(),
                    0 <= col,
                    0 <= row < self.spec_height(),
                    forall|bt: BlockType, v: Vec2|
                        #![trigger call_requires(op, (bt, v))]
                        0 <= v.x < self.spec_width() && 0 <= v.y < self.spec_height()
                            && self.cell_at(v.x as int, v.y as int) == Some(bt) ==> call_requires(
                            op,
                            (bt, v),
                        ),
                decreases self.spec_width() - col,
            {
                let idx = self.cell_index(col, row);
                if let Some(settled_cell) = self.settled_cells[idx] {
                    op(settled_cell, Vec2 { x: col, y: row });
                }
                col = col + 1;
            }
            row = row + 1;
        }
    }

    /// The number of settled cells on the board.
    pub fn get_settled_piece_count(&self) -> (r: usize)
        ensures
            r == self.spec_settled_count(),
    {
        let mut count: usize = 0;
        let mut i: usize = 0;
        while i < self.settled_cells.len()
            invariant
                i <= self.board().len(),
                count == count_some(self.board(), i as int),
                count <= i,
            decreases self.board().len() - i,
        {
            if self.settled_cells[i].is_some() {
                count = count + 1;
            }
            i = i + 1;
        }
        count
    }

    /// While the game is running with the active piece dropped onto the
    /// board (and once it has ended), the piece overlaps no settled cell;
    /// and the board holds at most one settled shape per position, one entry
    /// per board cell.
    pub proof fn lemma_active_piece_never_overlaps(self)
        requires
            self.inv(),
            self.spec_phase() is MoveBlock || self.spec_phase() is GameOver,
            0 <= self.spec_active_pos().y,
        ensures
            !self.piece_collides_at(
                self.spec_active_block(),
                self.spec_active_pos().x as int,
                self.spec_active_pos().y as int,
            ),
            self.board().len() == self.spec_width() * self.spec_height(),
    {
    }
}

/// The guideline scoring table: clearing 1, 2, 3 or 4 rows in one settle is
/// worth 40, 100, 300 or 1200 points; settling without a clear is worth
/// nothing. A four-cell piece can never clear more than four rows at once.
pub proof fn lemma_clear_score_table()
    ensures
        spec_clear_score(0) == 0,
        spec_clear_score(1) == 40,
        spec_clear_score(2) == 100,
        spec_clear_score(3) == 300,
        spec_clear_score(4) == 1200,
{
}

/// The level is `line_score / 5 + 1`, and one settle clears at most four
/// lines: a settle leaves the level unchanged or raises it by exactly one,
/// and it raises it exactly when the line total crosses a multiple of five.
pub proof fn lemma_level_step(lines: int, cleared: int)
    ensures
        0 <= lines && 0 <= cleared <= 4 ==> {
            let before = lines / 5 + 1;
            let after = (lines + cleared) / 5 + 1;
            &&& before <= after <= before + 1
            &&& (after == before + 1 <==> exists|m: int| lines < #[trigger] (5 * m) <= lines + cleared)
        },
{
    if 0 <= lines && 0 <= cleared <= 4 {
        vstd::arithmetic::div_mod::lemma_fundamental_div_mod(lines, 5);
        vstd::arithmetic::div_mod::lemma_mod_bound(lines, 5);
        let q = lines / 5;
        let r = lines % 5;
        if r + cleared < 5 {
            vstd::arithmetic::div_mod::lemma_fundamental_div_mod_converse(
                lines + cleared,
                5,
                q,
                r + cleared,
            );
            assert forall|m: int| !(lines < #[trigger] (5 * m) <= lines + cleared) by {
                assert(!(5 * q + r < 5 * m <= 5 * q + r + cleared)) by (nonlinear_arith)
                    requires
                        0 <= r,
                        r + cleared < 5,
                ;
            }
        } else {
            vstd::arithmetic::div_mod::lemma_fundamental_div_mod_converse(
                lines + cleared,
                5,
                q + 1,
                r + cleared - 5,
            );
            assert(5 * (q + 1) == 5 * q + 5) by (nonlinear_arith);
            assert(lines < 5 * (q + 1) <= lines + cleared);
        }
    }
}

/// Whether `block` anchored at `block_pos` touches `bound`: resting on the
/// floor row, flush against the left wall, or flush against the right wall.
spec fn spec_touching_bound(block: Block, block_pos: Vec2, bound: Bound) -> bool {
    match bound {
        Bound::Floor(floor) => block.spec_top() + block_pos.y + block.spec_height() >= floor,
        Bound::LeftWall(left) => block.spec_left() + block_pos.x <= left + 1,
        Bound::RightWall(right) => block.spec_left() + block_pos.x + block.spec_width() >= right,
    }
}

fn is_touching_bound(block: Block, block_pos: Vec2, bound: Bound) -> (r: bool)
    requires
        block_pos.x <= i32::MAX - 8,
        block_pos.y <= i32::MAX - 8,
        bound matches Bound::LeftWall(l) ==> l < i32::MAX,
    ensures
        r == spec_touching_bound(block, block_pos, bound),
{
    proof {
        lemma_cells_in_bbox(block);
    }
    match bound {
        Bound::Floor(floor) => block.top() + block_pos.y + block.height() >= floor,
        Bound::LeftWall(left) => block.left() + block_pos.x <= left + 1,
        Bound::RightWall(right) => block.left() + block_pos.x + block.width() >= right,
    }
}

/// Row-major grid indices are in range and injective.
proof fn lemma_grid_index(w: int, h: int, x: int, y: int)
    requires
        0 <= x < w,
        0 <= y < h,
    ensures
        0 <= y * w + x < w * h,
{
    assert(0 <= y * w + x < w * h) by (nonlinear_arith)
        requires
            0 <= x < w,
            0 <= y < h,
    ;
}

/// Row-major indexing is injective on in-range grid positions.
proof fn lemma_grid_index_injective(w: int, h: int, x1: int, y1: int, x2: int, y2: int)
    requires
        0 <= x1 < w,
        0 <= y1 < h,
        0 <= x2 < w,
        0 <= y2 < h,
    ensures
        y1 * w + x1 == y2 * w + x2 ==> x1 == x2 && y1 == y2,
{
    assert(y1 * w + x1 == y2 * w + x2 ==> x1 == x2 && y1 == y2) by (nonlinear_arith)
        requires
            0 <= x1 < w,
            0 <= y1 < h,
            0 <= x2 < w,
            0 <= y2 < h,
    ;
}

/// A product of two values at least 4 each is at least either factor.
proof fn lemma_mul_bounds(w: int, h: int)
    requires
        4 <= w,
        4 <= h,
    ensures
        w <= w * h,
        h <= w * h,
        0 < w * h,
{
    assert(w <= w * h && h <= w * h && 0 < w * h) by (nonlinear_arith)
        requires
            4 <= w,
            4 <= h,
    ;
}

} // verus!
