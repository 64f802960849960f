//! Falling rock shapes in a seven-cell-wide chamber, one bit row per line.
use vstd::prelude::*;

verus! {

/// A rock shape as bit rows (bottom row first) and its initial left shift.
pub struct ShapeInfo {
    pub data: Vec<u8>,
    pub shift: usize,
}

/// The horizontal bar.
pub fn shape_minus() -> (s: ShapeInfo)
    ensures
        s.data@ =~= seq![0b1111u8],
        s.shift == 1,
{
    let mut data: Vec<u8> = Vec::new();
    data.push(0b1111);
    ShapeInfo { data, shift: 1 }
}

/// The plus sign.
pub fn shape_plus() -> (s: ShapeInfo)
    ensures
        s.data@ =~= seq![0b010u8, 0b111u8, 0b010u8],
        s.shift == 2,
{
    let mut data: Vec<u8> = Vec::new();
    data.push(0b010);
    data.push(0b111);
    data.push(0b010);
    ShapeInfo { data, shift: 2 }
}

/// The mirrored L.
pub fn shape_l() -> (s: ShapeInfo)
    ensures
        s.data@ =~= seq![0b111u8, 0b001u8, 0b001u8],
        s.shift == 2,
{
    let mut data: Vec<u8> = Vec::new();
    data.push(0b111);
    data.push(0b001);
    data.push(0b001);
    ShapeInfo { data, shift: 2 }
}

/// The vertical bar.
pub fn shape_i() -> (s: ShapeInfo)
    ensures
        s.data@ =~= seq![0b1u8, 0b1u8, 0b1u8, 0b1u8],
        s.shift == 4,
{
    let mut data: Vec<u8> = Vec::new();
    data.push(0b1);
    data.push(0b1);
    data.push(0b1);
    data.push(0b1);
    ShapeInfo { data, shift: 4 }
}

/// The square block.
pub fn shape_block() -> (s: ShapeInfo)
    ensures
        s.data@ =~= seq![0b11u8, 0b11u8],
        s.shift == 3,
{
    let mut data: Vec<u8> = Vec::new();
    data.push(0b11);
    data.push(0b11);
    ShapeInfo { data, shift: 3 }
}

/// Whether a falling shape decided to keep falling or to settle.
#[derive(Debug, Copy, Clone, PartialEq, Eq, Structural)]
pub enum FallOrSettle {
    Fall,
    Settle,
}

/// A falling rock: its bit rows, its current left shift, and how many rows
/// remain between its bottom row and the chamber floor.
#[derive(Debug)]
pub struct Shape {
    pub shape: Vec<u8>,
    pub shift: usize,
    pub height_until_floor: usize,
}

/// Whether a shape shifted left by `shift` overlaps the settled rocks when
/// its bottom row sits `huf` rows above the floor.
pub open spec fn spec_intersects(shape: Seq<u8>, shift: int, huf: int, chamber: Seq<u8>) -> bool {
    &&& huf < chamber.len()
    &&& exists|k: int|
        0 <= k < shape.len() && huf + k < chamber.len() && ((#[trigger] shape[k] as u8) << shift
            as u8) & chamber[huf + k] != 0
}

/// The chamber after a shape settles: overlapped rows are ORed in, and rows
/// above the old top are appended.
pub open spec fn spec_settled(chamber: Seq<u8>, shape: Seq<u8>, shift: int, huf: int) -> Seq<u8> {
    Seq::new(
        vstd::math::max(chamber.len() as int, huf + shape.len()) as nat,
        |k: int|
            if k < chamber.len() {
                if huf <= k < huf + shape.len() {
                    chamber[k] | ((shape[k - huf] as u8) << shift as u8)
                } else {
                    chamber[k]
                }
            } else {
                (shape[k - huf] as u8) << shift as u8
            },
    )
}

/// Whether shape rows shifted by `shift`, with the bottom row `huf` rows
/// above the floor, overlap the settled rocks.
#[verifier::loop_isolation(false)]
fn rows_intersect(shape: &Vec<u8>, shift: usize, huf: usize, chamber: &Vec<u8>) -> (r: bool)
    requires
        shift <= 7,
    ensures
        r == spec_intersects(shape@, shift as int, huf as int, chamber@),
{
    if huf >= chamber.len() {
        return false;
    }
    let mut k: usize = 0;
    while k < shape.len() && huf + k < chamber.len()
        invariant
            k <= shape@.len(),
            huf + k <= chamber@.len(),
            forall|k2: int|
                0 <= k2 < k && huf + k2 < chamber@.len() ==> ((#[trigger] shape@[k2] as u8)
                    << shift as u8) & chamber@[huf + k2] == 0,
        decreases shape@.len() - k,
    {
        if (shape[k] << (shift as u8)) & chamber[huf + k] != 0 {
            return true;
        }
        k = k + 1;
    }
    false
}

impl Shape {
    /// The shift stays inside the seven-cell chamber row.
    pub open spec fn wf(&self) -> bool {
        self.shift <= 7
    }

    /// A fresh rock three rows above the current chamber top.
    pub fn new(shape_info: ShapeInfo, chamber_height: usize) -> (s: Shape)
        requires
            chamber_height + 3 <= usize::MAX,
            shape_info.shift <= 7,
        ensures
            s.shape@ == shape_info.data@,
            s.shift == shape_info.shift,
            s.height_until_floor == chamber_height + 3,
            s.wf(),
    {
        Shape {
            shape: shape_info.data,
            shift: shape_info.shift,
            height_until_floor: chamber_height + 3,
        }
    }

    /// Whether the rock, where it stands, overlaps the settled rocks.
    pub fn intersects(&self, chamber: &Vec<u8>) -> (r: bool)
        requires
            self.wf(),
        ensures
            r == spec_intersects(
                self.shape@,
                self.shift as int,
                self.height_until_floor as int,
                chamber@,
            ),
    {
        rows_intersect(&self.shape, self.shift, self.height_until_floor, chamber)
    }

    /// Tries to move the rock `shift_by` cells across: refused, with the rock
    /// unchanged, when the move leaves the seven-cell field or overlaps the
    /// settled rocks.
    pub fn try_shift(&mut self, shift_by: isize, chamber: &Vec<u8>) -> (r: Result<(), ()>)
        requires
            old(self).wf(),
            -8 <= shift_by <= 8,
        ensures
            final(self).wf(),
            final(self).shape@ == old(self).shape@,
            final(self).height_until_floor == old(self).height_until_floor,
            ({
                let ns = old(self).shift + shift_by;
                let blocked = ns < 0 || ns > 7 || (exists|k: int|
                    0 <= k < old(self).shape@.len() && ((#[trigger] old(self).shape@[k] as u8)
                        << ns as u8) & 0x80u8 != 0) || spec_intersects(
                    old(self).shape@,
                    ns,
                    old(self).height_until_floor as int,
                    chamber@,
                );
                if blocked {
                    r is Err && final(self).shift == old(self).shift
                } else {
                    r is Ok && final(self).shift == ns
                }
            }),
    {
        let shift = self.shift as isize + shift_by;
        if shift < 0 || shift > 7 {
            return Err(());
        }
        let ns = shift as usize;
        let mut k: usize = 0;
        #[verifier::loop_isolation(false)]
        while k < self.shape.len()
            invariant
                k <= self.shape@.len(),
                forall|k2: int|
                    0 <= k2 < k ==> ((#[trigger] self.shape@[k2] as u8) << ns as u8) & 0x80u8
                        == 0,
            decreases self.shape@.len() - k,
        {
            if (self.shape[k] << (ns as u8)) & 0x80 != 0 {
                return Err(());
            }
            k = k + 1;
        }
        if rows_intersect(&self.shape, ns, self.height_until_floor, chamber) {
            Err(())
        } else {
            self.shift = ns;
            Ok(())
        }
    }

    /// Settles the rock where it stands: its rows are ORed into the chamber,
    /// extending the chamber where the rock tops it.
    #[verifier::loop_isolation(false)]
    pub fn settle(&self, chamber: &mut Vec<u8>)
        requires
            self.wf(),
            self.height_until_floor <= old(chamber)@.len(),
            self.height_until_floor + self.shape@.len() <= usize::MAX,
        ensures
            final(chamber)@ == spec_settled(
                old(chamber)@,
                self.shape@,
                self.shift as int,
                self.height_until_floor as int,
            ),
    {
        let huf = self.height_until_floor;
        let mut k: usize = 0;
        while k < self.shape.len() && huf + k < chamber.len()
            invariant
                k <= self.shape@.len(),
                huf + k <= chamber@.len(),
                chamber@.len() == old(chamber)@.len(),
                forall|k2: int|
                    0 <= k2 < chamber@.len() && !(huf <= k2 < huf + k) ==> #[trigger] chamber@[k2]
                        == old(chamber)@[k2],
                forall|k2: int|
                    0 <= k2 < k && huf + k2 < chamber@.len() ==> #[trigger] chamber@[huf + k2]
                        == (old(chamber)@[huf + k2] | ((self.shape@[k2] as u8) << self.shift
                        as u8)),
            decreases self.shape@.len() - k,
        {
            let idx = huf + k;
            let v = chamber[idx] | (self.shape[k] << (self.shift as u8));
            chamber[idx] = v;
            k = k + 1;
        }
        if k < self.shape.len() {
            while k < self.shape.len()
                invariant
                    k <= self.shape@.len(),
                    old(chamber)@.len() <= huf + k,
                    chamber@.len() == huf + k,
                    forall|k2: int|
                        0 <= k2 < old(chamber)@.len() && !(huf <= k2 < huf + k)
                            ==> #[trigger] chamber@[k2] == old(chamber)@[k2],
                    forall|k2: int|
                        0 <= k2 < k && huf + k2 < old(chamber)@.len() ==> #[trigger] chamber@[huf
                            + k2] == (old(chamber)@[huf + k2] | ((self.shape@[k2] as u8)
                            << self.shift as u8)),
                    forall|k2: int|
                        old(chamber)@.len() <= huf + k2 < chamber@.len() && 0 <= k2 < k
                            ==> #[trigger] chamber@[huf + k2] == ((self.shape@[k2] as u8)
                            << self.shift as u8),
                decreases self.shape@.len() - k,
            {
                chamber.push(self.shape[k] << (self.shift as u8));
                k = k + 1;
            }
        }
        proof {
            let s = spec_settled(
                old(chamber)@,
                self.shape@,
                self.shift as int,
                self.height_until_floor as int,
            );
            assert forall|j: int| 0 <= j < chamber@.len() implies chamber@[j] == s[j] by {
                if huf <= j < huf + self.shape@.len() {
                    let k2 = j - huf;
                    assert(chamber@[huf + k2] == s[j]);
                }
            }
            assert(chamber@ =~= s);
        }
    }

    /// One gravity step: keeps falling while above the chamber or while the
    /// row below is free, settles otherwise.
    pub fn fall_or_settle(&mut self, chamber: &mut Vec<u8>) -> (r: FallOrSettle)
        requires
            old(self).wf(),
            old(self).height_until_floor + old(self).shape@.len() <= usize::MAX,
        ensures
            final(self).wf(),
            final(self).shape@ == old(self).shape@,
            final(self).shift == old(self).shift,
            r == FallOrSettle::Fall <==> (old(self).height_until_floor > old(chamber)@.len() || (
            old(self).height_until_floor > 0 && !spec_intersects(
                old(self).shape@,
                old(self).shift as int,
                old(self).height_until_floor - 1,
                old(chamber)@,
            ))),
            r == FallOrSettle::Fall ==> final(self).height_until_floor == old(
                self,
            ).height_until_floor - 1 && final(chamber)@ == old(chamber)@,
            r == FallOrSettle::Settle ==> final(self).height_until_floor == old(
                self,
            ).height_until_floor && final(chamber)@ == spec_settled(
                old(chamber)@,
                old(self).shape@,
                old(self).shift as int,
                old(self).height_until_floor as int,
            ),
    {
        if self.height_until_floor > chamber.len() {
            self.height_until_floor = self.height_until_floor - 1;
            return FallOrSettle::Fall;
        }
        if self.height_until_floor == 0 {
            self.settle(chamber);
            return FallOrSettle::Settle;
        }
        if rows_intersect(&self.shape, self.shift, self.height_until_floor - 1, chamber) {
            self.settle(chamber);
            FallOrSettle::Settle
        } else {
            self.height_until_floor = self.height_until_floor - 1;
            FallOrSettle::Fall
        }
    }
}

} // verus!
