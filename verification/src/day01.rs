//! Largest calorie loads: a fixed-size board of the three largest values seen.
use vstd::prelude::*;

verus! {

/// The three largest values inserted so far, in descending order.
pub struct Top3(pub [u64; 3]);

impl Top3 {
    /// Descending order of the board.
    pub open spec fn wf(&self) -> bool {
        self.0@[0] >= self.0@[1] >= self.0@[2]
    }

    /// An empty board.
    pub fn new() -> (t: Top3)
        ensures
            t.0@ =~= seq![0u64, 0u64, 0u64],
            t.wf(),
    {
        Top3([0, 0, 0])
    }

    /// Slides `new_elf` into the board: each slot keeps the larger of itself
    /// and what cascades down from above, so the board ends up holding the
    /// three largest of the four values involved, in descending order.
    pub fn insert(&mut self, new_elf: u64)
        requires
            old(self).wf(),
        ensures
            final(self).wf(),
            final(self).0@[0] == vstd::math::max(old(self).0@[0] as int, new_elf as int),
            final(self).0@[1] == vstd::math::max(
                old(self).0@[1] as int,
                vstd::math::min(old(self).0@[0] as int, new_elf as int),
            ),
            final(self).0@[2] == vstd::math::max(
                old(self).0@[2] as int,
                vstd::math::min(
                    old(self).0@[1] as int,
                    vstd::math::min(old(self).0@[0] as int, new_elf as int),
                ),
            ),
    {
        let mut slider = new_elf;
        let a0 = self.0[0];
        let a1 = self.0[1];
        let a2 = self.0[2];
        let n0 = if a0 >= slider { a0 } else { slider };
        slider = if a0 <= slider { a0 } else { slider };
        let n1 = if a1 >= slider { a1 } else { slider };
        slider = if a1 <= slider { a1 } else { slider };
        let n2 = if a2 >= slider { a2 } else { slider };
        self.0 = [n0, n1, n2];
    }

    /// Sum of the board.
    pub fn total(&self) -> (t: u64)
        requires
            self.0@[0] + self.0@[1] + self.0@[2] <= u64::MAX,
        ensures
            t == self.0@[0] + self.0@[1] + self.0@[2],
    {
        self.0[0] + self.0[1] + self.0[2]
    }
}

} // verus!
