//! Small geometric value types shared by the engine and its drivers.

use vstd::prelude::*;

verus! {

/// An integer 2D coordinate. `x` grows rightward, `y` grows downward.
/// Used both for absolute board positions and for relative cell offsets.
#[derive(Clone, Copy, Debug, PartialEq, Eq, Structural)]
pub struct Vec2 {
    pub x: i32,
    pub y: i32,
}

/// An axis-aligned rectangle, used by drivers to lay out frames on screen.
pub struct Rect {
    pub left: i32,
    pub top: i32,
    pub width: i32,
    pub height: i32,
}

impl Vec2 {
    pub fn zero() -> (v: Vec2)
        ensures
            v == (Vec2 { x: 0, y: 0 }),
    {
        Vec2 { x: 0, y: 0 }
    }
}

impl Rect {
    pub fn right(&self) -> (r: i32)
        requires
            i32::MIN < self.left + self.width <= i32::MAX,
        ensures
            r == self.left + self.width - 1,
    {
        let right = self.left + self.width - 1;
        right
    }

    pub fn bottom(&self) -> (b: i32)
        requires
            i32::MIN < self.top + self.height <= i32::MAX,
        ensures
            b == self.top + self.height - 1,
    {
        let bottom = self.top + self.height - 1;
        bottom
    }

    pub fn center_x(&self) -> (c: i32)
        requires
            self.width >= 0,
            i32::MIN <= self.left + self.width / 2 <= i32::MAX,
        ensures
            c == self.left + self.width / 2,
    {
        self.left + self.width / 2
    }

    pub fn center_y(&self) -> (c: i32)
        requires
            self.height >= 0,
            i32::MIN <= self.top + self.height / 2 <= i32::MAX,
        ensures
            c == self.top + self.height / 2,
    {
        self.top + self.height / 2
    }
}

} // verus!
