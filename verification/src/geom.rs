use vstd::prelude::*;

verus! {

/// Number of fixed-point coordinate units per pixel. A scale of 6 keeps
/// every quantity of the game an exact integer: half the ball radius is
/// 7.5 px = 45 units, and a brick grid cell is 350/6 px = 350 units tall.
pub const UNITS_PER_PIXEL: i64 = 6;

/// Playfield width: 1280 px.
pub const FIELD_W: i64 = 7680;
/// Playfield height: 720 px.
pub const FIELD_H: i64 = 4320;

/// Columns of the brick grid.
pub const BRICK_COLS: i64 = 10;
/// Rows of the brick grid.
pub const BRICK_ROWS: i64 = 6;
/// Gap between bricks and around the grid: 10 px.
pub const BRICK_GAP: i64 = 60;

/// The ball's drawn radius: 15 px.
pub const BALL_RADIUS: i64 = 90;
/// Half the side of the ball's bounding square: 7.5 px. The bounding
/// square's side is the 15 px radius constant, not its double.
pub const BALL_HALF: i64 = 45;
/// Distance the ball travels per frame on each axis: the 10 px speed
/// constant scaled by the half-unit direction components, so 5 px.
pub const BALL_STEP: i64 = 30;
/// Distance the paddle moves per key-held frame: 25 px.
pub const PADDLE_STEP: i64 = 150;

/// Bound on every stored coordinate, well beyond anything the game
/// reaches, so that per-frame arithmetic stays inside `i64`.
pub const COORD_LIMIT: i64 = 0x1000_0000_0000;

/// A point: the top-left corner for paddle and bricks, the center for
/// the ball.
#[derive(Clone, Copy, PartialEq, Eq, Structural, Debug)]
pub struct Position {
    pub x: i64,
    pub y: i64,
}

/// The ball's velocity sign vector; each component is -1 or +1 and is
/// scaled by [`BALL_STEP`] when the ball moves.
#[derive(Clone, Copy, PartialEq, Eq, Structural, Debug)]
pub struct Direction {
    pub x: i64,
    pub y: i64,
}

/// Bounding-box dimensions for paddle and bricks.
#[derive(Clone, Copy, PartialEq, Eq, Structural, Debug)]
pub struct Size {
    pub w: i64,
    pub h: i64,
}

impl Position {
    pub open spec fn sp(self) -> (int, int) {
        (self.x as int, self.y as int)
    }
}

impl Direction {
    pub open spec fn sp(self) -> (int, int) {
        (self.x as int, self.y as int)
    }
}

impl Size {
    pub open spec fn sp(self) -> (int, int) {
        (self.w as int, self.h as int)
    }
}

/// A rectangle in the mathematical plane, used by specifications.
pub struct RectSp {
    pub x: int,
    pub y: int,
    pub w: int,
    pub h: int,
}

/// A rectangle made of a top-left corner and extents.
pub open spec fn rect_of(pos: (int, int), size: (int, int)) -> RectSp {
    RectSp { x: pos.0, y: pos.1, w: size.0, h: size.1 }
}

/// The ball's bounding square around its center point.
pub open spec fn ball_rect(center: (int, int)) -> RectSp {
    RectSp {
        x: center.0 - BALL_HALF as int,
        y: center.1 - BALL_HALF as int,
        w: 2 * BALL_HALF as int,
        h: 2 * BALL_HALF as int,
    }
}

/// Axis-aligned overlap, strict on every edge: rectangles that merely
/// touch do not overlap.
pub open spec fn overlaps(a: RectSp, b: RectSp) -> bool {
    &&& a.x < b.x + b.w
    &&& a.x + a.w > b.x
    &&& a.y < b.y + b.h
    &&& a.y + a.h > b.y
}

/// An axis-aligned rectangle with fixed-point coordinates.
#[derive(Clone, Copy, PartialEq, Eq, Structural, Debug)]
pub struct Rect {
    pub x: i64,
    pub y: i64,
    pub w: i64,
    pub h: i64,
}

impl Rect {
    pub open spec fn sp(self) -> RectSp {
        RectSp { x: self.x as int, y: self.y as int, w: self.w as int, h: self.h as int }
    }

    pub fn new(x: i64, y: i64, w: i64, h: i64) -> (r: Rect)
        ensures
            r.sp() == (RectSp { x: x as int, y: y as int, w: w as int, h: h as int }),
    {
        Rect { x, y, w, h }
    }

    /// Strict axis-aligned overlap test. The comparisons are widened so
    /// that no coordinate bound is needed.
    pub fn intersects(&self, other: &Rect) -> (r: bool)
        ensures
            r == overlaps(self.sp(), other.sp()),
    {
        (self.x as i128) < (other.x as i128) + (other.w as i128)
            && (self.x as i128) + (self.w as i128) > (other.x as i128)
            && (self.y as i128) < (other.y as i128) + (other.h as i128)
            && (self.y as i128) + (self.h as i128) > (other.y as i128)
    }
}

/// A drawable shape handed to the embedding program, in fixed-point
/// units.
#[derive(Clone, Copy, PartialEq, Eq, Structural, Debug)]
pub enum Shape {
    Rectangle { x: i64, y: i64, w: i64, h: i64 },
    Circle { cx: i64, cy: i64, radius: i64 },
}

} // verus!
