//! The reset button.

use vstd::prelude::*;
use crate::game::Collision;
use crate::geometry::{rect_covers, Position};

verus! {

/// A rectangular button with the size of its icon.
#[derive(PartialEq, Eq, Structural, Clone, Copy, Debug)]
pub struct Button {
    pub pos: Position,
    pub width: i32,
    pub height: i32,
}

impl Button {
    pub fn new(pos: Position, width: i32, height: i32) -> (b: Self)
        ensures
            b == (Button { pos, width, height }),
    {
        Self { pos, width, height }
    }
}

impl Collision for Button {
    open spec fn covers(&self, pos: Position) -> bool {
        rect_covers(self.pos, self.width as int, self.height as int, pos)
    }

    fn inside(&self, pos: Position) -> (hit: bool) {
        let dx: i64 = pos.x as i64 - self.pos.x as i64;
        let dy: i64 = pos.y as i64 - self.pos.y as i64;
        0 <= dx && dx <= self.width as i64 && 0 <= dy && dy <= self.height as i64
    }
}

} // verus!
