//! Lava droplet voxels.
use vstd::prelude::*;

verus! {

use crate::nums_from;

/// A cube position in the droplet scan.
#[derive(Debug, Clone, Copy, PartialEq, Eq, Hash, Structural)]
pub struct Voxel {
    pub x: i32,
    pub y: i32,
    pub z: i32,
}

impl Voxel {
    pub fn new(x: i32, y: i32, z: i32) -> (v: Voxel)
        ensures
            v == (Voxel { x, y, z }),
    {
        Voxel { x, y, z }
    }

    /// Reads a `x,y,z` line.
    pub fn load(line: &[u8]) -> (v: Voxel)
        requires
            nums_from(line@, 0, false).len() >= 3,
        ensures
            v.x == nums_from(line@, 0, false)[0] as i32,
            v.y == nums_from(line@, 0, false)[1] as i32,
            v.z == nums_from(line@, 0, false)[2] as i32,
    {
        let mut numbers: Vec<u64> = Vec::new();
        numbers.push(0);
        numbers.push(0);
        numbers.push(0);
        crate::parse_nums(line, &mut numbers);
        Voxel::new(numbers[0] as i32, numbers[1] as i32, numbers[2] as i32)
    }

    /// The six face-adjacent cubes.
    pub fn adjacent(&self) -> (r: Vec<Voxel>)
        requires
            i32::MIN < self.x < i32::MAX,
            i32::MIN < self.y < i32::MAX,
            i32::MIN < self.z < i32::MAX,
        ensures
            r@ =~= seq![
                (Voxel { x: self.x, y: self.y, z: (self.z + 1) as i32 }),
                (Voxel { x: self.x, y: self.y, z: (self.z - 1) as i32 }),
                (Voxel { x: self.x, y: (self.y + 1) as i32, z: self.z }),
                (Voxel { x: self.x, y: (self.y - 1) as i32, z: self.z }),
                (Voxel { x: (self.x + 1) as i32, y: self.y, z: self.z }),
                (Voxel { x: (self.x - 1) as i32, y: self.y, z: self.z }),
            ],
    {
        let mut r: Vec<Voxel> = Vec::new();
        r.push(Voxel { x: self.x, y: self.y, z: self.z + 1 });
        r.push(Voxel { x: self.x, y: self.y, z: self.z - 1 });
        r.push(Voxel { x: self.x, y: self.y + 1, z: self.z });
        r.push(Voxel { x: self.x, y: self.y - 1, z: self.z });
        r.push(Voxel { x: self.x + 1, y: self.y, z: self.z });
        r.push(Voxel { x: self.x - 1, y: self.y, z: self.z });
        r
    }

    /// Componentwise minimum.
    pub fn min(&self, other: &Voxel) -> (r: Voxel)
        ensures
            r.x == vstd::math::min(self.x as int, other.x as int),
            r.y == vstd::math::min(self.y as int, other.y as int),
            r.z == vstd::math::min(self.z as int, other.z as int),
    {
        Voxel {
            x: if self.x <= other.x {
                self.x
            } else {
                other.x
            },
            y: if self.y <= other.y {
                self.y
            } else {
                other.y
            },
            z: if self.z <= other.z {
                self.z
            } else {
                other.z
            },
        }
    }

    /// Componentwise maximum.
    pub fn max(&self, other: &Voxel) -> (r: Voxel)
        ensures
            r.x == vstd::math::max(self.x as int, other.x as int),
            r.y == vstd::math::max(self.y as int, other.y as int),
            r.z == vstd::math::max(self.z as int, other.z as int),
    {
        Voxel {
            x: if self.x >= other.x {
                self.x
            } else {
                other.x
            },
            y: if self.y >= other.y {
                self.y
            } else {
                other.y
            },
            z: if self.z >= other.z {
                self.z
            } else {
                other.z
            },
        }
    }

    /// Whether the cube lies inside the closed box `[min, max]`.
    pub fn in_bounds(&self, min: &Voxel, max: &Voxel) -> (r: bool)
        ensures
            r == (min.x <= self.x <= max.x && min.y <= self.y <= max.y && min.z <= self.z
                <= max.z),
    {
        self.x >= min.x && self.x <= max.x && self.y >= min.y && self.y <= max.y && self.z
            >= min.z && self.z <= max.z
    }
}

} // verus!
