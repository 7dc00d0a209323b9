//! Tetromino geometry: the seven shapes, their four rotation states, the
//! per-shape/per-rotation cell offsets, bounding-box queries, and the
//! wall-kick tables consulted when a rotation does not fit in place.

use vstd::prelude::*;
use crate::randwrapper::RangeRng;
use crate::util::Vec2;

verus! {

/// One of the four discrete orientation states of a piece.
#[derive(Clone, Copy, Debug, PartialEq, Eq, Structural)]
pub enum Rotation {
    Rot0,
    Rot1,
    Rot2,
    Rot3,
}

/// One of the seven tetromino shapes.
#[derive(Clone, Copy, Debug, PartialEq, Eq, Structural)]
pub enum BlockType {
    I,
    O,
    T,
    S,
    Z,
    J,
    L,
}

/// A piece: a shape together with its current rotation state.
/// An immutable value; rotating produces a new `Block`.
#[derive(Clone, Copy, Debug, PartialEq, Eq, Structural)]
pub struct Block {
    pub rot: Rotation,
    pub block_type: BlockType,
}

pub open spec fn imin(a: int, b: int) -> int {
    if a <= b {
        a
    } else {
        b
    }
}

pub open spec fn imax(a: int, b: int) -> int {
    if a >= b {
        a
    } else {
        b
    }
}

impl Rotation {
    /// The rotation state adjacent to `self`: `-1` turns counter-clockwise,
    /// `1` clockwise, `0` keeps the state. Other inputs are meaningless and
    /// the result is left as `self`.
    pub open spec fn spec_rotate(self, relative_rotation: int) -> Rotation {
        if relative_rotation == -1 {
            match self {
                Rotation::Rot0 => Rotation::Rot3,
                Rotation::Rot1 => Rotation::Rot0,
                Rotation::Rot2 => Rotation::Rot1,
                Rotation::Rot3 => Rotation::Rot2,
            }
        } else if relative_rotation == 1 {
            match self {
                Rotation::Rot0 => Rotation::Rot1,
                Rotation::Rot1 => Rotation::Rot2,
                Rotation::Rot2 => Rotation::Rot3,
                Rotation::Rot3 => Rotation::Rot0,
            }
        } else {
            self
        }
    }

    fn rotate(&self, relative_rotation: i32) -> (r: Self)
        requires
            -1 <= relative_rotation <= 1,
        ensures
            r == self.spec_rotate(relative_rotation as int),
    {
        match relative_rotation {
            0 => *self,
            -1 => match self {
                Rotation::Rot0 => Rotation::Rot3,
                Rotation::Rot1 => Rotation::Rot0,
                Rotation::Rot2 => Rotation::Rot1,
                Rotation::Rot3 => Rotation::Rot2,
            },
            1 => match self {
                Rotation::Rot0 => Rotation::Rot1,
                Rotation::Rot1 => Rotation::Rot2,
                Rotation::Rot2 => Rotation::Rot3,
                Rotation::Rot3 => Rotation::Rot0,
            },
            _ => vstd::pervasive::unreached(),
        }
    }

    /// The ordered kick offsets to try when rotating `block` from `self` to
    /// `dest`. Only the eight single-step transitions are meaningful (and the
    /// O shape is never kicked); every other combination yields the empty
    /// sequence.
    pub open spec fn spec_kick_attempts(self, block: BlockType, dest: Rotation) -> Seq<Vec2> {
        if block == BlockType::O {
            seq![]
        } else if block == BlockType::I {
            match (self, dest) {
                (Rotation::Rot0, Rotation::Rot1) => seq![
                    Vec2 { x: 0, y: 0 }, Vec2 { x: -2i32, y: 0 }, Vec2 { x: 1, y: 0 },
                    Vec2 { x: -2i32, y: -1i32 }, Vec2 { x: 1, y: 2 },
                ],
                (Rotation::Rot1, Rotation::Rot0) => seq![
                    Vec2 { x: 0, y: 0 }, Vec2 { x: 2, y: 0 }, Vec2 { x: -1i32, y: 0 },
                    Vec2 { x: 2, y: 1 }, Vec2 { x: -1i32, y: -2i32 },
                ],
                (Rotation::Rot1, Rotation::Rot2) => seq![
                    Vec2 { x: 0, y: 0 }, Vec2 { x: -1i32, y: 0 }, Vec2 { x: 2, y: 0 },
                    Vec2 { x: -1i32, y: 2 }, Vec2 { x: 2, y: -1i32 },
                ],
                (Rotation::Rot2, Rotation::Rot1) => seq![
                    Vec2 { x: 0, y: 0 }, Vec2 { x: 1, y: 0 }, Vec2 { x: -2i32, y: 0 },
                    Vec2 { x: 1, y: -2i32 }, Vec2 { x: -2i32, y: 1 },
                ],
                (Rotation::Rot2, Rotation::Rot3) => seq![
                    Vec2 { x: 0, y: 0 }, Vec2 { x: 2, y: 0 }, Vec2 { x: -1i32, y: 0 },
                    Vec2 { x: 2, y: 1 }, Vec2 { x: -1i32, y: -2i32 },
                ],
                (Rotation::Rot3, Rotation::Rot2) => seq![
                    Vec2 { x: 0, y: 0 }, Vec2 { x: -2i32, y: 0 }, Vec2 { x: 1, y: 0 },
                    Vec2 { x: -2i32, y: -1i32 }, Vec2 { x: 1, y: 2 },
                ],
                (Rotation::Rot3, Rotation::Rot0) => seq![
                    Vec2 { x: 0, y: 0 }, Vec2 { x: 1, y: 0 }, Vec2 { x: -2i32, y: 0 },
                    Vec2 { x: 1, y: -2i32 }, Vec2 { x: -2i32, y: 1 },
                ],
                (Rotation::Rot0, Rotation::Rot3) => seq![
                    Vec2 { x: 0, y: 0 }, Vec2 { x: -1i32, y: 0 }, Vec2 { x: 2, y: 0 },
                    Vec2 { x: -1i32, y: 2 }, Vec2 { x: 2, y: -1i32 },
                ],
                _ => seq![],
            }
        } else {
            match (self, dest) {
                (Rotation::Rot0, Rotation::Rot1) => seq![
                    Vec2 { x: 0, y: 0 }, Vec2 { x: -1i32, y: 0 }, Vec2 { x: -1i32, y: 1 },
                    Vec2 { x: 0, y: -2i32 }, Vec2 { x: -1i32, y: -2i32 },
                ],
                (Rotation::Rot1, Rotation::Rot0) => seq![
                    Vec2 { x: 0, y: 0 }, Vec2 { x: 1, y: 0 }, Vec2 { x: 1, y: -1i32 },
                    Vec2 { x: 0, y: 2 }, Vec2 { x: 1, y: 2 },
                ],
                (Rotation::Rot1, Rotation::Rot2) => seq![
                    Vec2 { x: 0, y: 0 }, Vec2 { x: 1, y: 0 }, Vec2 { x: 1, y: -1i32 },
                    Vec2 { x: 0, y: 2 }, Vec2 { x: 1, y: 2 },
                ],
                (Rotation::Rot2, Rotation::Rot1) => seq![
                    Vec2 { x: 0, y: 0 }, Vec2 { x: -1i32, y: 0 }, Vec2 { x: -1i32, y: 1 },
                    Vec2 { x: 0, y: -2i32 }, Vec2 { x: -1i32, y: -2i32 },
                ],
                (Rotation::Rot2, Rotation::Rot3) => seq![
                    Vec2 { x: 0, y: 0 }, Vec2 { x: 1, y: 0 }, Vec2 { x: 1, y: 1 },
                    Vec2 { x: 0, y: -2i32 }, Vec2 { x: -1i32, y: -2i32 },
                ],
                (Rotation::Rot3, Rotation::Rot2) => seq![
                    Vec2 { x: 0, y: 0 }, Vec2 { x: -1i32, y: 0 }, Vec2 { x: -1i32, y: -1i32 },
                    Vec2 { x: 0, y: 2 }, Vec2 { x: 1, y: -2i32 },
                ],
                (Rotation::Rot3, Rotation::Rot0) => seq![
                    Vec2 { x: 0, y: 0 }, Vec2 { x: -1i32, y: 0 }, Vec2 { x: -1i32, y: -1i32 },
                    Vec2 { x: 0, y: 2 }, Vec2 { x: -1i32, y: 2 },
                ],
                (Rotation::Rot0, Rotation::Rot3) => seq![
                    Vec2 { x: 0, y: 0 }, Vec2 { x: 1, y: 0 }, Vec2 { x: 1, y: 1 },
                    Vec2 { x: 0, y: -2i32 }, Vec2 { x: 1, y: -2i32 },
                ],
                _ => seq![],
            }
        }
    }

    /// The five kick offsets for rotating `block` from `self` to `dest_rot`.
    /// The first attempt is always the null offset (rotate in place).
    pub fn get_kick_attempts(&self, block: BlockType, dest_rot: Rotation) -> (r: [Vec2; 5])
        requires
            block != BlockType::O,
            dest_rot == self.spec_rotate(1) || dest_rot == self.spec_rotate(-1),
        ensures
            r@ == self.spec_kick_attempts(block, dest_rot),
    {
        if block == BlockType::I {
            match (*self, dest_rot) {
                (Rotation::Rot0, Rotation::Rot1) => [
                    Vec2 { x: 0, y: 0 }, Vec2 { x: -2i32, y: 0 }, Vec2 { x: 1, y: 0 },
                    Vec2 { x: -2i32, y: -1i32 }, Vec2 { x: 1, y: 2 },
                ],
                (Rotation::Rot1, Rotation::Rot0) => [
                    Vec2 { x: 0, y: 0 }, Vec2 { x: 2, y: 0 }, Vec2 { x: -1i32, y: 0 },
                    Vec2 { x: 2, y: 1 }, Vec2 { x: -1i32, y: -2i32 },
                ],
                (Rotation::Rot1, Rotation::Rot2) => [
                    Vec2 { x: 0, y: 0 }, Vec2 { x: -1i32, y: 0 }, Vec2 { x: 2, y: 0 },
                    Vec2 { x: -1i32, y: 2 }, Vec2 { x: 2, y: -1i32 },
                ],
                (Rotation::Rot2, Rotation::Rot1) => [
                    Vec2 { x: 0, y: 0 }, Vec2 { x: 1, y: 0 }, Vec2 { x: -2i32, y: 0 },
                    Vec2 { x: 1, y: -2i32 }, Vec2 { x: -2i32, y: 1 },
                ],
                (Rotation::Rot2, Rotation::Rot3) => [
                    Vec2 { x: 0, y: 0 }, Vec2 { x: 2, y: 0 }, Vec2 { x: -1i32, y: 0 },
                    Vec2 { x: 2, y: 1 }, Vec2 { x: -1i32, y: -2i32 },
                ],
                (Rotation::Rot3, Rotation::Rot2) => [
                    Vec2 { x: 0, y: 0 }, Vec2 { x: -2i32, y: 0 }, Vec2 { x: 1, y: 0 },
                    Vec2 { x: -2i32, y: -1i32 }, Vec2 { x: 1, y: 2 },
                ],
                (Rotation::Rot3, Rotation::Rot0) => [
                    Vec2 { x: 0, y: 0 }, Vec2 { x: 1, y: 0 }, Vec2 { x: -2i32, y: 0 },
                    Vec2 { x: 1, y: -2i32 }, Vec2 { x: -2i32, y: 1 },
                ],
                (Rotation::Rot0, Rotation::Rot3) => [
                    Vec2 { x: 0, y: 0 }, Vec2 { x: -1i32, y: 0 }, Vec2 { x: 2, y: 0 },
                    Vec2 { x: -1i32, y: 2 }, Vec2 { x: 2, y: -1i32 },
                ],
                _ => vstd::pervasive::unreached(),
            }
        } else {
            match (*self, dest_rot) {
                (Rotation::Rot0, Rotation::Rot1) => [
                    Vec2 { x: 0, y: 0 }, Vec2 { x: -1i32, y: 0 }, Vec2 { x: -1i32, y: 1 },
                    Vec2 { x: 0, y: -2i32 }, Vec2 { x: -1i32, y: -2i32 },
                ],
                (Rotation::Rot1, Rotation::Rot0) => [
                    Vec2 { x: 0, y: 0 }, Vec2 { x: 1, y: 0 }, Vec2 { x: 1, y: -1i32 },
                    Vec2 { x: 0, y: 2 }, Vec2 { x: 1, y: 2 },
                ],
                (Rotation::Rot1, Rotation::Rot2) => [
                    Vec2 { x: 0, y: 0 }, Vec2 { x: 1, y: 0 }, Vec2 { x: 1, y: -1i32 },
                    Vec2 { x: 0, y: 2 }, Vec2 { x: 1, y: 2 },
                ],
                (Rotation::Rot2, Rotation::Rot1) => [
                    Vec2 { x: 0, y: 0 }, Vec2 { x: -1i32, y: 0 }, Vec2 { x: -1i32, y: 1 },
                    Vec2 { x: 0, y: -2i32 }, Vec2 { x: -1i32, y: -2i32 },
                ],
                (Rotation::Rot2, Rotation::Rot3) => [
                    Vec2 { x: 0, y: 0 }, Vec2 { x: 1, y: 0 }, Vec2 { x: 1, y: 1 },
                    Vec2 { x: 0, y: -2i32 }, Vec2 { x: -1i32, y: -2i32 },
                ],
                (Rotation::Rot3, Rotation::Rot2) => [
                    Vec2 { x: 0, y: 0 }, Vec2 { x: -1i32, y: 0 }, Vec2 { x: -1i32, y: -1i32 },
                    Vec2 { x: 0, y: 2 }, Vec2 { x: 1, y: -2i32 },
                ],
                (Rotation::Rot3, Rotation::Rot0) => [
                    Vec2 { x: 0, y: 0 }, Vec2 { x: -1i32, y: 0 }, Vec2 { x: -1i32, y: -1i32 },
                    Vec2 { x: 0, y: 2 }, Vec2 { x: -1i32, y: 2 },
                ],
                (Rotation::Rot0, Rotation::Rot3) => [
                    Vec2 { x: 0, y: 0 }, Vec2 { x: 1, y: 0 }, Vec2 { x: 1, y: 1 },
                    Vec2 { x: 0, y: -2i32 }, Vec2 { x: 1, y: -2i32 },
                ],
                _ => vstd::pervasive::unreached(),
            }
        }
    }
}

impl BlockType {
    /// The 1-based position of this shape in the fixed shape ordering
    /// I, O, T, S, Z, J, L; the random draw picks a shape by this number.
    pub open spec fn spec_number(self) -> int {
        match self {
            BlockType::I => 1,
            BlockType::O => 2,
            BlockType::T => 3,
            BlockType::S => 4,
            BlockType::Z => 5,
            BlockType::J => 6,
            BlockType::L => 7,
        }
    }

    pub fn number(&self) -> (n: usize)
        ensures
            n == self.spec_number(),
    {
        match *self {
            BlockType::I => 1,
            BlockType::O => 2,
            BlockType::T => 3,
            BlockType::S => 4,
            BlockType::Z => 5,
            BlockType::J => 6,
            BlockType::L => 7,
        }
    }

    pub open spec fn spec_sprite_char(self) -> char {
        match self {
            BlockType::I => 'O',
            BlockType::O => 'X',
            BlockType::T => '+',
            BlockType::S => '>',
            BlockType::Z => '<',
            BlockType::J => '/',
            BlockType::L => '\\',
        }
    }

    /// The character a text front end draws for a cell of this shape.
    pub fn sprite_char(&self) -> (c: char)
        ensures
            c == self.spec_sprite_char(),
    {
        match *self {
            BlockType::I => 'O',
            BlockType::O => 'X',
            BlockType::T => '+',
            BlockType::S => '>',
            BlockType::Z => '<',
            BlockType::J => '/',
            BlockType::L => '\\',
        }
    }
}

impl Block {
    /// The four cell offsets of this shape in this rotation state, as
    /// hand-authored positions in a 4-by-4 grid. The O shape has the same
    /// cells in every rotation state.
    pub open spec fn spec_cells(self) -> Seq<Vec2> {
        match self.block_type {
            BlockType::I => match self.rot {
                Rotation::Rot0 => seq![
                    Vec2 { x: 0, y: 1 }, Vec2 { x: 1, y: 1 }, Vec2 { x: 2, y: 1 }, Vec2 { x: 3, y: 1 },
                ],
                Rotation::Rot1 => seq![
                    Vec2 { x: 2, y: 0 }, Vec2 { x: 2, y: 1 }, Vec2 { x: 2, y: 2 }, Vec2 { x: 2, y: 3 },
                ],
                Rotation::Rot2 => seq![
                    Vec2 { x: 0, y: 2 }, Vec2 { x: 1, y: 2 }, Vec2 { x: 2, y: 2 }, Vec2 { x: 3, y: 2 },
                ],
                Rotation::Rot3 => seq![
                    Vec2 { x: 1, y: 0 }, Vec2 { x: 1, y: 1 }, Vec2 { x: 1, y: 2 }, Vec2 { x: 1, y: 3 },
                ],
            },
            BlockType::O => seq![
                Vec2 { x: 1, y: 0 }, Vec2 { x: 2, y: 0 }, Vec2 { x: 1, y: 1 }, Vec2 { x: 2, y: 1 },
            ],
            BlockType::T => match self.rot {
                Rotation::Rot0 => seq![
                    Vec2 { x: 1, y: 0 }, Vec2 { x: 0, y: 1 }, Vec2 { x: 1, y: 1 }, Vec2 { x: 2, y: 1 },
                ],
                Rotation::Rot1 => seq![
                    Vec2 { x: 1, y: 0 }, Vec2 { x: 1, y: 1 }, Vec2 { x: 2, y: 1 }, Vec2 { x: 1, y: 2 },
                ],
                Rotation::Rot2 => seq![
                    Vec2 { x: 0, y: 1 }, Vec2 { x: 1, y: 1 }, Vec2 { x: 2, y: 1 }, Vec2 { x: 1, y: 2 },
                ],
                Rotation::Rot3 => seq![
                    Vec2 { x: 1, y: 0 }, Vec2 { x: 0, y: 1 }, Vec2 { x: 1, y: 1 }, Vec2 { x: 1, y: 2 },
                ],
            },
            BlockType::S => match self.rot {
                Rotation::Rot0 => seq![
                    Vec2 { x: 1, y: 0 }, Vec2 { x: 2, y: 0 }, Vec2 { x: 0, y: 1 }, Vec2 { x: 1, y: 1 },
                ],
                Rotation::Rot1 => seq![
                    Vec2 { x: 1, y: 0 }, Vec2 { x: 1, y: 1 }, Vec2 { x: 2, y: 1 }, Vec2 { x: 2, y: 2 },
                ],
                Rotation::Rot2 => seq![
                    Vec2 { x: 1, y: 1 }, Vec2 { x: 2, y: 1 }, Vec2 { x: 0, y: 2 }, Vec2 { x: 1, y: 2 },
                ],
                Rotation::Rot3 => seq![
                    Vec2 { x: 0, y: 0 }, Vec2 { x: 0, y: 1 }, Vec2 { x: 1, y: 1 }, Vec2 { x: 1, y: 2 },
                ],
            },
            BlockType::Z => match self.rot {
                Rotation::Rot0 => seq![
                    Vec2 { x: 0, y: 0 }, Vec2 { x: 1, y: 0 }, Vec2 { x: 1, y: 1 }, Vec2 { x: 2, y: 1 },
                ],
                Rotation::Rot1 => seq![
                    Vec2 { x: 2, y: 0 }, Vec2 { x: 1, y: 1 }, Vec2 { x: 2, y: 1 }, Vec2 { x: 1, y: 2 },
                ],
                Rotation::Rot2 => seq![
                    Vec2 { x: 0, y: 1 }, Vec2 { x: 1, y: 1 }, Vec2 { x: 1, y: 2 }, Vec2 { x: 2, y: 2 },
                ],
                Rotation::Rot3 => seq![
                    Vec2 { x: 1, y: 0 }, Vec2 { x: 0, y: 1 }, Vec2 { x: 1, y: 1 }, Vec2 { x: 0, y: 2 },
                ],
            },
            BlockType::J => match self.rot {
                Rotation::Rot0 => seq![
                    Vec2 { x: 0, y: 0 }, Vec2 { x: 0, y: 1 }, Vec2 { x: 1, y: 1 }, Vec2 { x: 2, y: 1 },
                ],
                Rotation::Rot1 => seq![
                    Vec2 { x: 1, y: 0 }, Vec2 { x: 2, y: 0 }, Vec2 { x: 1, y: 1 }, Vec2 { x: 1, y: 2 },
                ],
                Rotation::Rot2 => seq![
                    Vec2 { x: 0, y: 1 }, Vec2 { x: 1, y: 1 }, Vec2 { x: 2, y: 1 }, Vec2 { x: 2, y: 2 },
                ],
                Rotation::Rot3 => seq![
                    Vec2 { x: 1, y: 0 }, Vec2 { x: 1, y: 1 }, Vec2 { x: 0, y: 2 }, Vec2 { x: 1, y: 2 },
                ],
            },
            BlockType::L => match self.rot {
                Rotation::Rot0 => seq![
                    Vec2 { x: 2, y: 0 }, Vec2 { x: 0, y: 1 }, Vec2 { x: 1, y: 1 }, Vec2 { x: 2, y: 1 },
                ],
                Rotation::Rot1 => seq![
                    Vec2 { x: 1, y: 0 }, Vec2 { x: 1, y: 1 }, Vec2 { x: 1, y: 2 }, Vec2 { x: 2, y: 2 },
                ],
                Rotation::Rot2 => seq![
                    Vec2 { x: 0, y: 1 }, Vec2 { x: 1, y: 1 }, Vec2 { x: 2, y: 1 }, Vec2 { x: 0, y: 2 },
                ],
                Rotation::Rot3 => seq![
                    Vec2 { x: 0, y: 0 }, Vec2 { x: 1, y: 0 }, Vec2 { x: 1, y: 1 }, Vec2 { x: 1, y: 2 },
                ],
            },
        }
    }

    /// Leftmost x offset among the four cells.
    pub open spec fn spec_left(self) -> int {
        let cs = self.spec_cells();
        imin(imin(cs[0].x as int, cs[1].x as int), imin(cs[2].x as int, cs[3].x as int))
    }

    /// Topmost y offset among the four cells.
    pub open spec fn spec_top(self) -> int {
        let cs = self.spec_cells();
        imin(imin(cs[0].y as int, cs[1].y as int), imin(cs[2].y as int, cs[3].y as int))
    }

    /// Rightmost x offset among the four cells.
    pub open spec fn spec_right(self) -> int {
        let cs = self.spec_cells();
        imax(imax(cs[0].x as int, cs[1].x as int), imax(cs[2].x as int, cs[3].x as int))
    }

    /// Bottommost y offset among the four cells.
    pub open spec fn spec_bottom(self) -> int {
        let cs = self.spec_cells();
        imax(imax(cs[0].y as int, cs[1].y as int), imax(cs[2].y as int, cs[3].y as int))
    }

    pub open spec fn spec_width(self) -> int {
        self.spec_right() - self.spec_left() + 1
    }

    pub open spec fn spec_height(self) -> int {
        self.spec_bottom() - self.spec_top() + 1
    }

    /// A fixed placeholder piece, used as the active piece before the first
    /// spawn replaces it.
    pub fn default() -> (b: Self)
        ensures
            b == (Block { rot: Rotation::Rot0, block_type: BlockType::I }),
    {
        Block { rot: Rotation::Rot0, block_type: BlockType::I }
    }

    /// The piece selected by a drawn number: the shape whose `spec_number`
    /// is `n`, in rotation state 0. Numbers outside `[1, 8)` select the last
    /// shape; the draws that reach this always stay inside.
    pub open spec fn spec_from_number(n: int) -> Block {
        let block_type = if n == 1 {
            BlockType::I
        } else if n == 2 {
            BlockType::O
        } else if n == 3 {
            BlockType::T
        } else if n == 4 {
            BlockType::S
        } else if n == 5 {
            BlockType::Z
        } else if n == 6 {
            BlockType::J
        } else {
            BlockType::L
        };
        Block { rot: Rotation::Rot0, block_type }
    }

    /// The piece a drawn number selects (see `spec_from_number`).
    pub fn from_number(n: usize) -> (b: Self)
        requires
            1 <= n < 8,
        ensures
            b == Self::spec_from_number(n as int),
            b.rot == Rotation::Rot0,
            b.block_type.spec_number() == n,
    {
        let block_type = match n {
            1 => BlockType::I,
            2 => BlockType::O,
            3 => BlockType::T,
            4 => BlockType::S,
            5 => BlockType::Z,
            6 => BlockType::J,
            _ => BlockType::L,
        };
        Block { rot: Rotation::Rot0, block_type }
    }

    /// Draws a shape uniformly from the seven shapes through the injected
    /// random source; the piece starts in rotation state 0. The drawn number
    /// `n` in `[1, 8)` selects the shape whose `spec_number` is `n`, so with
    /// a source whose next draw is pinned (`spec_may_yield`), the piece is
    /// pinned too.
    pub fn random<R: RangeRng>(rng: &mut R) -> (b: Self)
        ensures
            b.rot == Rotation::Rot0,
            exists|n: usize|
                1 <= n < 8 && (#[trigger] old(rng).spec_may_yield(1, 8, n)) && b
                    == Self::spec_from_number(n as int),
    {
        let n = rng.gen_range(1, 8);
        Self::from_number(n)
    }

    pub fn sprite_char(&self) -> (c: char)
        ensures
            c == self.block_type.spec_sprite_char(),
    {
        self.block_type.sprite_char()
    }

    /// The four cell offsets of this piece (see `spec_cells`).
    pub fn cells(&self) -> (r: [Vec2; 4])
        ensures
            r@ == self.spec_cells(),
    {
        let rot = self.rot;
        let r = match self.block_type {
            BlockType::I => match rot {
                Rotation::Rot0 => [
                    Vec2 { x: 0, y: 1 }, Vec2 { x: 1, y: 1 }, Vec2 { x: 2, y: 1 }, Vec2 { x: 3, y: 1 },
                ],
                Rotation::Rot1 => [
                    Vec2 { x: 2, y: 0 }, Vec2 { x: 2, y: 1 }, Vec2 { x: 2, y: 2 }, Vec2 { x: 2, y: 3 },
                ],
                Rotation::Rot2 => [
                    Vec2 { x: 0, y: 2 }, Vec2 { x: 1, y: 2 }, Vec2 { x: 2, y: 2 }, Vec2 { x: 3, y: 2 },
                ],
                Rotation::Rot3 => [
                    Vec2 { x: 1, y: 0 }, Vec2 { x: 1, y: 1 }, Vec2 { x: 1, y: 2 }, Vec2 { x: 1, y: 3 },
                ],
            },
            BlockType::O => [
                Vec2 { x: 1, y: 0 }, Vec2 { x: 2, y: 0 }, Vec2 { x: 1, y: 1 }, Vec2 { x: 2, y: 1 },
            ],
            BlockType::T => match rot {
                Rotation::Rot0 => [
                    Vec2 { x: 1, y: 0 }, Vec2 { x: 0, y: 1 }, Vec2 { x: 1, y: 1 }, Vec2 { x: 2, y: 1 },
                ],
                Rotation::Rot1 => [
                    Vec2 { x: 1, y: 0 }, Vec2 { x: 1, y: 1 }, Vec2 { x: 2, y: 1 }, Vec2 { x: 1, y: 2 },
                ],
                Rotation::Rot2 => [
                    Vec2 { x: 0, y: 1 }, Vec2 { x: 1, y: 1 }, Vec2 { x: 2, y: 1 }, Vec2 { x: 1, y: 2 },
                ],
                Rotation::Rot3 => [
                    Vec2 { x: 1, y: 0 }, Vec2 { x: 0, y: 1 }, Vec2 { x: 1, y: 1 }, Vec2 { x: 1, y: 2 },
                ],
            },
            BlockType::S => match rot {
                Rotation::Rot0 => [
                    Vec2 { x: 1, y: 0 }, Vec2 { x: 2, y: 0 }, Vec2 { x: 0, y: 1 }, Vec2 { x: 1, y: 1 },
                ],
                Rotation::Rot1 => [
                    Vec2 { x: 1, y: 0 }, Vec2 { x: 1, y: 1 }, Vec2 { x: 2, y: 1 }, Vec2 { x: 2, y: 2 },
                ],
                Rotation::Rot2 => [
                    Vec2 { x: 1, y: 1 }, Vec2 { x: 2, y: 1 }, Vec2 { x: 0, y: 2 }, Vec2 { x: 1, y: 2 },
                ],
                Rotation::Rot3 => [
                    Vec2 { x: 0, y: 0 }, Vec2 { x: 0, y: 1 }, Vec2 { x: 1, y: 1 }, Vec2 { x: 1, y: 2 },
                ],
            },
            BlockType::Z => match rot {
                Rotation::Rot0 => [
                    Vec2 { x: 0, y: 0 }, Vec2 { x: 1, y: 0 }, Vec2 { x: 1, y: 1 }, Vec2 { x: 2, y: 1 },
                ],
                Rotation::Rot1 => [
                    Vec2 { x: 2, y: 0 }, Vec2 { x: 1, y: 1 }, Vec2 { x: 2, y: 1 }, Vec2 { x: 1, y: 2 },
                ],
                Rotation::Rot2 => [
                    Vec2 { x: 0, y: 1 }, Vec2 { x: 1, y: 1 }, Vec2 { x: 1, y: 2 }, Vec2 { x: 2, y: 2 },
                ],
                Rotation::Rot3 => [
                    Vec2 { x: 1, y: 0 }, Vec2 { x: 0, y: 1 }, Vec2 { x: 1, y: 1 }, Vec2 { x: 0, y: 2 },
                ],
            },
            BlockType::J => match rot {
                Rotation::Rot0 => [
                    Vec2 { x: 0, y: 0 }, Vec2 { x: 0, y: 1 }, Vec2 { x: 1, y: 1 }, Vec2 { x: 2, y: 1 },
                ],
                Rotation::Rot1 => [
                    Vec2 { x: 1, y: 0 }, Vec2 { x: 2, y: 0 }, Vec2 { x: 1, y: 1 }, Vec2 { x: 1, y: 2 },
                ],
                Rotation::Rot2 => [
                    Vec2 { x: 0, y: 1 }, Vec2 { x: 1, y: 1 }, Vec2 { x: 2, y: 1 }, Vec2 { x: 2, y: 2 },
                ],
                Rotation::Rot3 => [
                    Vec2 { x: 1, y: 0 }, Vec2 { x: 1, y: 1 }, Vec2 { x: 0, y: 2 }, Vec2 { x: 1, y: 2 },
                ],
            },
            BlockType::L => match rot {
                Rotation::Rot0 => [
                    Vec2 { x: 2, y: 0 }, Vec2 { x: 0, y: 1 }, Vec2 { x: 1, y: 1 }, Vec2 { x: 2, y: 1 },
                ],
                Rotation::Rot1 => [
                    Vec2 { x: 1, y: 0 }, Vec2 { x: 1, y: 1 }, Vec2 { x: 1, y: 2 }, Vec2 { x: 2, y: 2 },
                ],
                Rotation::Rot2 => [
                    Vec2 { x: 0, y: 1 }, Vec2 { x: 1, y: 1 }, Vec2 { x: 2, y: 1 }, Vec2 { x: 0, y: 2 },
                ],
                Rotation::Rot3 => [
                    Vec2 { x: 0, y: 0 }, Vec2 { x: 1, y: 0 }, Vec2 { x: 1, y: 1 }, Vec2 { x: 1, y: 2 },
                ],
            },
        };
        proof {
            assert(r@ =~= self.spec_cells());
        }
        r
    }

    /// Topmost y offset of the bounding box for the current rotation.
    pub fn top(&self) -> (t: i32)
        ensures
            t == self.spec_top(),
    {
        let cs = self.cells();
        let mut m = cs[0].y;
        if cs[1].y < m {
            m = cs[1].y;
        }
        if cs[2].y < m {
            m = cs[2].y;
        }
        if cs[3].y < m {
            m = cs[3].y;
        }
        m
    }

    /// Leftmost x offset of the bounding box for the current rotation.
    pub fn left(&self) -> (l: i32)
        ensures
            l == self.spec_left(),
    {
        let cs = self.cells();
        let mut m = cs[0].x;
        if cs[1].x < m {
            m = cs[1].x;
        }
        if cs[2].x < m {
            m = cs[2].x;
        }
        if cs[3].x < m {
            m = cs[3].x;
        }
        m
    }

    /// Width of the bounding box for the current rotation.
    pub fn width(&self) -> (w: i32)
        ensures
            w == self.spec_width(),
    {
        proof {
            lemma_cells_in_grid(*self);
        }
        let left_block = self.left();
        let cs = self.cells();
        let mut m = cs[0].x;
        if cs[1].x > m {
            m = cs[1].x;
        }
        if cs[2].x > m {
            m = cs[2].x;
        }
        if cs[3].x > m {
            m = cs[3].x;
        }
        m - left_block + 1
    }

    /// Height of the bounding box for the current rotation.
    pub fn height(&self) -> (h: i32)
        ensures
            h == self.spec_height(),
    {
        proof {
            lemma_cells_in_grid(*self);
        }
        let top_block = self.top();
        let cs = self.cells();
        let mut m = cs[0].y;
        if cs[1].y > m {
            m = cs[1].y;
        }
        if cs[2].y > m {
            m = cs[2].y;
        }
        if cs[3].y > m {
            m = cs[3].y;
        }
        m - top_block + 1
    }

    /// A new piece of the same shape in the adjacent rotation state.
    pub fn rotate(&self, relative_rotation: i32) -> (b: Self)
        requires
            -1 <= relative_rotation <= 1,
        ensures
            b.rot == self.rot.spec_rotate(relative_rotation as int),
            b.block_type == self.block_type,
    {
        Self { rot: self.rot.rotate(relative_rotation), block_type: self.block_type }
    }
}

/// Every cell offset lies inside the 4-by-4 authoring grid.
pub proof fn lemma_cells_in_grid(b: Block)
    ensures
        b.spec_cells().len() == 4,
        forall|i: int| 0 <= i < 4 ==> 0 <= (#[trigger] b.spec_cells()[i]).x <= 3,
        forall|i: int| 0 <= i < 4 ==> 0 <= (#[trigger] b.spec_cells()[i]).y <= 3,
{
}

/// The four cell offsets of a piece are pairwise distinct: a piece never
/// occupies the same cell twice.
pub proof fn lemma_cells_distinct(b: Block)
    ensures
        forall|i: int, j: int|
            0 <= i < 4 && 0 <= j < 4 && i != j ==> #[trigger] b.spec_cells()[i]
                != #[trigger] b.spec_cells()[j],
{
}

/// Every cell offset lies inside the bounding box described by the
/// `spec_left`/`spec_top`/`spec_width`/`spec_height` queries, and the box is
/// tight within the authoring grid.
pub proof fn lemma_cells_in_bbox(b: Block)
    ensures
        forall|i: int|
            0 <= i < 4 ==> b.spec_left() <= (#[trigger] b.spec_cells()[i]).x
                < b.spec_left() + b.spec_width(),
        forall|i: int|
            0 <= i < 4 ==> b.spec_top() <= (#[trigger] b.spec_cells()[i]).y
                < b.spec_top() + b.spec_height(),
        0 <= b.spec_left(),
        0 <= b.spec_top(),
        1 <= b.spec_width(),
        1 <= b.spec_height(),
        b.spec_left() + b.spec_width() <= 4,
        b.spec_top() + b.spec_height() <= 4,
{
    lemma_cells_in_grid(b);
}

/// Every kick offset moves the piece by at most two cells on each axis.
pub proof fn lemma_kick_bounds(from: Rotation, block: BlockType, dest: Rotation)
    ensures
        forall|i: int|
            0 <= i < from.spec_kick_attempts(block, dest).len() ==> -2 <= (
            #[trigger] from.spec_kick_attempts(block, dest)[i]).x <= 2 && -2
                <= from.spec_kick_attempts(block, dest)[i].y <= 2,
        from.spec_kick_attempts(block, dest).len() <= 5,
{
}

/// Rotating an O piece never changes its cells: its geometry is the same in
/// all four rotation states, whatever relative rotation is applied.
pub proof fn lemma_o_rotation_keeps_cells(b: Block, relative_rotation: int)
    requires
        b.block_type == BlockType::O,
    ensures
        (Block {
            rot: b.rot.spec_rotate(relative_rotation),
            block_type: b.block_type,
        }).spec_cells() == b.spec_cells(),
{
}

/// Translates each of four cell offsets by a row and column delta.
pub fn translate_cells(cells: &[Vec2; 4], row_translation: i32, col_translation: i32) -> (r: [Vec2;
    4])
    requires
        forall|i: int|
            0 <= i < 4 ==> i32::MIN <= (#[trigger] cells@[i]).x + col_translation <= i32::MAX,
        forall|i: int|
            0 <= i < 4 ==> i32::MIN <= (#[trigger] cells@[i]).y + row_translation <= i32::MAX,
    ensures
        forall|i: int|
            0 <= i < 4 ==> (#[trigger] r@[i]).x == cells@[i].x + col_translation && r@[i].y
                == cells@[i].y + row_translation,
{
    [
        Vec2 { x: cells[0].x + col_translation, y: cells[0].y + row_translation },
        Vec2 { x: cells[1].x + col_translation, y: cells[1].y + row_translation },
        Vec2 { x: cells[2].x + col_translation, y: cells[2].y + row_translation },
        Vec2 { x: cells[3].x + col_translation, y: cells[3].y + row_translation },
    ]
}

} // verus!
