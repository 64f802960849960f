//! Rope knots following each other on a grid.
use vstd::prelude::*;

verus! {

/// The sign of a difference: -1, 0 or 1.
pub open spec fn spec_sign(d: int) -> int {
    if d > 0 {
        1
    } else if d < 0 {
        -1
    } else {
        0
    }
}

/// A rope knot at integer coordinates.
#[derive(Debug, Clone, Copy, PartialEq, Eq, Hash, Structural)]
pub struct Knot(pub i16, pub i16);

impl Knot {
    /// Drags this knot one step towards `other` when the two are not
    /// touching (at least two apart on some axis); returns whether it moved.
    pub fn move_towards(&mut self, other: &Knot) -> (moved: bool)
        requires
            i16::MIN < other.0 - old(self).0 <= i16::MAX,
            i16::MIN < other.1 - old(self).1 <= i16::MAX,
        ensures
            moved == (other.0 - old(self).0 >= 2 || old(self).0 - other.0 >= 2 || other.1 - old(
                self,
            ).1 >= 2 || old(self).1 - other.1 >= 2),
            final(self).0 == if moved {
                old(self).0 + spec_sign(other.0 - old(self).0)
            } else {
                old(self).0 as int
            },
            final(self).1 == if moved {
                old(self).1 + spec_sign(other.1 - old(self).1)
            } else {
                old(self).1 as int
            },
    {
        let dx = other.0 - self.0;
        let dy = other.1 - self.1;
        let adx = if dx < 0 {
            -dx
        } else {
            dx
        };
        let ady = if dy < 0 {
            -dy
        } else {
            dy
        };
        if adx >= 2 || ady >= 2 {
            let sx: i16 = if dx > 0 {
                1
            } else if dx < 0 {
                -1
            } else {
                0
            };
            let sy: i16 = if dy > 0 {
                1
            } else if dy < 0 {
                -1
            } else {
                0
            };
            self.0 = self.0 + sx;
            self.1 = self.1 + sy;
            true
        } else {
            false
        }
    }

    /// Moves the knot one step: `U`, `D`, `R` or `L` (y grows downward).
    pub fn move_dir(&mut self, dir: u8)
        requires
            dir == 85 || dir == 68 || dir == 82 || dir == 76,
            dir == 85 ==> old(self).1 > i16::MIN,
            dir == 68 ==> old(self).1 < i16::MAX,
            dir == 82 ==> old(self).0 < i16::MAX,
            dir == 76 ==> old(self).0 > i16::MIN,
        ensures
            final(self).0 == old(self).0 + (if dir == 82 {
                1int
            } else if dir == 76 {
                -1int
            } else {
                0int
            }),
            final(self).1 == old(self).1 + (if dir == 68 {
                1int
            } else if dir == 85 {
                -1int
            } else {
                0int
            }),
    {
        if dir == 85 {
            self.1 = self.1 - 1;
        } else if dir == 68 {
            self.1 = self.1 + 1;
        } else if dir == 82 {
            self.0 = self.0 + 1;
        } else {
            self.0 = self.0 - 1;
        }
    }
}

} // verus!
