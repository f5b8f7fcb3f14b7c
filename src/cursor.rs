use vstd::prelude::*;

verus! {

/// Farthest the cursor may go from the centre on either axis, in millionths.
pub const CURSOR_LIMIT: i128 = 1_500_000;

/// The play cursor's position, in millionths.
#[derive(Clone, Copy, Debug, PartialEq, Eq, Structural)]
pub struct Cursor {
    pub x: i128,
    pub y: i128,
}

pub open spec fn clamp_spec(v: int, lo: int, hi: int) -> int {
    if v < lo {
        lo
    } else if v > hi {
        hi
    } else {
        v
    }
}

fn clamp_coord(v: i128) -> (r: i128)
    ensures
        r == clamp_spec(v as int, -CURSOR_LIMIT as int, CURSOR_LIMIT as int),
{
    if v < -CURSOR_LIMIT {
        -CURSOR_LIMIT
    } else if v > CURSOR_LIMIT {
        CURSOR_LIMIT
    } else {
        v
    }
}

impl Cursor {
    /// The cursor at the centre.
    pub fn new() -> (c: Cursor)
        ensures
            c.x == 0 && c.y == 0,
    {
        Cursor { x: 0, y: 0 }
    }

    /// Whether the cursor lies within the play area.
    pub open spec fn in_bounds(&self) -> bool {
        -CURSOR_LIMIT <= self.x <= CURSOR_LIMIT && -CURSOR_LIMIT <= self.y <= CURSOR_LIMIT
    }

    /// Moves the cursor against a pointer motion of (`dx`, `dy`) millionths
    /// and keeps it within the play area.
    pub fn apply_motion(&mut self, dx: i64, dy: i64)
        requires
            old(self).in_bounds(),
        ensures
            final(self).x == clamp_spec(old(self).x - dx, -CURSOR_LIMIT as int, CURSOR_LIMIT as int),
            final(self).y == clamp_spec(old(self).y - dy, -CURSOR_LIMIT as int, CURSOR_LIMIT as int),
            final(self).in_bounds(),
    {
        self.x = clamp_coord(self.x - dx as i128);
        self.y = clamp_coord(self.y - dy as i128);
    }
}

} // verus!
