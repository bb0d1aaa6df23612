//! Screen coordinates.

use vstd::prelude::*;

verus! {

/// A point of the screen, or the top-left corner of something drawn on it.
#[derive(PartialEq, Eq, Structural, Clone, Copy, Debug)]
pub struct Position {
    pub x: i32,
    pub y: i32,
}

impl Position {
    pub fn new(x: i32, y: i32) -> (p: Position)
        ensures
            p == (Position { x, y }),
    {
        Position { x, y }
    }

    /// Moving this position by `(dx, dy)` stays within the coordinate range.
    pub open spec fn can_shift(&self, dx: int, dy: int) -> bool {
        &&& i32::MIN <= self.x + dx <= i32::MAX
        &&& i32::MIN <= self.y + dy <= i32::MAX
    }

    /// This position moved by `(dx, dy)`.
    pub open spec fn shifted(&self, dx: int, dy: int) -> Position {
        Position { x: (self.x + dx) as i32, y: (self.y + dy) as i32 }
    }
}

/// `p` lies in the rectangle whose top-left corner is `corner`, edges included.
pub open spec fn rect_covers(corner: Position, width: int, height: int, p: Position) -> bool {
    &&& corner.x <= p.x <= corner.x + width
    &&& corner.y <= p.y <= corner.y + height
}

/// Adds a vector to a point with `nalgebra`'s `Point2<i32> + Vector2<i32>`.
///
/// The sum is taken coordinate by coordinate. `nalgebra` adds with the `+` of
/// `i32`, so the two sums have to stay within `i32`.
#[verifier::external_body]
pub(crate) fn translate(point: Position, by: Position) -> (sum: Position)
    requires
        point.can_shift(by.x as int, by.y as int),
    ensures
        sum == point.shifted(by.x as int, by.y as int),
{
    let moved = nalgebra::Point2::new(point.x, point.y) + nalgebra::Vector2::new(by.x, by.y);
    Position { x: moved.x, y: moved.y }
}

} // verus!
