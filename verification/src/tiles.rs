//! Flat-buffer 2-D tile grid.
//!
//! A grid owns one contiguous buffer whose rows are `line_width` (the stride)
//! apart, while only the first `entry_len` cells of each row are logical
//! cells; the remaining stride cells absorb the line terminator of text maps.
use vstd::prelude::*;

verus! {

use vstd::arithmetic::div_mod::lemma_fundamental_div_mod;
use vstd::arithmetic::div_mod::lemma_fundamental_div_mod_converse_div;
use vstd::arithmetic::div_mod::lemma_fundamental_div_mod_converse_mod;
use vstd::arithmetic::div_mod::lemma_small_mod;
use vstd::math::abs;

/// A buffer of whole rows of stride `lw` reaches every cell `(px, py)` at
/// offset `py * lw + px`, inside the buffer.
pub proof fn lemma_cell_in_bounds(len: int, lw: int, px: int, py: int)
    requires
        1 <= lw,
        len % lw == 0,
        0 <= px < lw,
        0 <= py < len / lw,
    ensures
        0 <= py * lw,
        py * lw + px < len,
{
    lemma_fundamental_div_mod(len, lw);
    assert(0 <= py * lw && py * lw + px < len) by (nonlinear_arith)
        requires
            len == lw * (len / lw),
            0 <= px < lw,
            0 <= py < len / lw,
            1 <= lw,
    ;
}

/// Distinct cells of a row-major buffer have distinct offsets.
pub proof fn lemma_flat_index_injective(lw: int, px: int, py: int, qx: int, qy: int)
    requires
        1 <= lw,
        0 <= px < lw,
        0 <= qx < lw,
        0 <= py,
        0 <= qy,
        py * lw + px == qy * lw + qx,
    ensures
        px == qx,
        py == qy,
{
    let k = py * lw + px;
    lemma_fundamental_div_mod_converse_div(k, lw, py, px);
    lemma_fundamental_div_mod_converse_mod(k, lw, py, px);
    lemma_fundamental_div_mod_converse_div(k, lw, qy, qx);
    lemma_fundamental_div_mod_converse_mod(k, lw, qy, qx);
}

/// The mathematical remainder of a negative value, from the remainder of its
/// magnitude: zero stays zero, anything else is its complement.
pub proof fn lemma_mod_of_negative(x: int, m: int)
    requires
        1 <= m,
        x < 0,
    ensures
        (-x) % m == 0 ==> x % m == 0,
        (-x) % m != 0 ==> x % m == m - (-x) % m,
{
    vstd::arithmetic::div_mod::lemma_mod_bound(-x, m);
    lemma_fundamental_div_mod(-x, m);
    let q2 = (-x) / m;
    if (-x) % m == 0 {
        assert(x == m * (-q2) + 0) by (nonlinear_arith)
            requires
                -x == m * q2,
        ;
        lemma_fundamental_div_mod_converse_mod(x, m, -q2, 0);
    } else {
        assert(x == m * (-q2 - 1) + (m - (-x) % m)) by (nonlinear_arith)
            requires
                -x == m * q2 + (-x) % m,
        ;
        lemma_fundamental_div_mod_converse_mod(x, m, -q2 - 1, m - (-x) % m);
    }
}

/// A rectangular text block of row width `w`: each row holds `w` bytes none
/// of which is a newline, followed by one newline, so the stride is `w + 1`.
pub open spec fn row_terminated(s: Seq<u8>, w: int) -> bool {
    &&& 0 <= w < s.len()
    &&& s.len() as int % (w + 1) == 0
    &&& forall|k: int| 0 <= k < s.len() ==> ((s[k] == 10) <==> (k % (w + 1) == w))
}

/// A rectangular text block has only one row width.
pub proof fn lemma_row_width_unique(s: Seq<u8>, w1: int, w2: int)
    requires
        row_terminated(s, w1),
        row_terminated(s, w2),
    ensures
        w1 == w2,
{
    lemma_small_mod(w1 as nat, (w1 + 1) as nat);
    lemma_small_mod(w2 as nat, (w2 + 1) as nat);
    assert(s[w1] == 10);
    assert(s[w2] == 10);
    if w1 < w2 {
        lemma_small_mod(w1 as nat, (w2 + 1) as nat);
        assert(false);
    } else if w2 < w1 {
        lemma_small_mod(w2 as nat, (w1 + 1) as nat);
        assert(false);
    }
}

pub type CoordType = i16;

/// A 2-D coordinate, a plain value copied by all users.
#[derive(Debug, Clone, Copy, PartialEq, Eq, Hash, PartialOrd, Ord, Structural)]
pub struct Point {
    pub x: CoordType,
    pub y: CoordType,
}

impl Point {
    pub fn new(x: CoordType, y: CoordType) -> (p: Point)
        ensures
            p == (Point { x, y }),
    {
        Point { x, y }
    }

    /// Vector sum.
    pub fn add(self, rhs: Point) -> (p: Point)
        requires
            i16::MIN <= self.x + rhs.x <= i16::MAX,
            i16::MIN <= self.y + rhs.y <= i16::MAX,
        ensures
            p.x == self.x + rhs.x,
            p.y == self.y + rhs.y,
    {
        Point { x: self.x + rhs.x, y: self.y + rhs.y }
    }

    /// Vector difference.
    pub fn sub(self, rhs: Point) -> (p: Point)
        requires
            i16::MIN <= self.x - rhs.x <= i16::MAX,
            i16::MIN <= self.y - rhs.y <= i16::MAX,
        ensures
            p.x == self.x - rhs.x,
            p.y == self.y - rhs.y,
    {
        Point { x: self.x - rhs.x, y: self.y - rhs.y }
    }

    /// Scalar multiplication.
    pub fn mul(self, rhs: CoordType) -> (p: Point)
        requires
            i16::MIN <= self.x * rhs <= i16::MAX,
            i16::MIN <= self.y * rhs <= i16::MAX,
        ensures
            p.x == self.x * rhs,
            p.y == self.y * rhs,
    {
        Point { x: self.x * rhs, y: self.y * rhs }
    }

    /// The four cardinal neighbours of `self`, in the order south, east,
    /// north, west (y grows southward).
    pub open spec fn spec_neighbors(self) -> Seq<Point> {
        seq![
            (Point { x: self.x, y: (self.y + 1) as i16 }),
            (Point { x: (self.x + 1) as i16, y: self.y }),
            (Point { x: self.x, y: (self.y - 1) as i16 }),
            (Point { x: (self.x - 1) as i16, y: self.y }),
        ]
    }

    /// The four cardinal neighbours.
    pub fn neighbors(&self) -> (r: Vec<Point>)
        requires
            i16::MIN < self.x < i16::MAX,
            i16::MIN < self.y < i16::MAX,
        ensures
            r@ == self.spec_neighbors(),
    {
        let mut r: Vec<Point> = Vec::new();
        r.push(Point { x: self.x, y: self.y + 1 });
        r.push(Point { x: self.x + 1, y: self.y });
        r.push(Point { x: self.x, y: self.y - 1 });
        r.push(Point { x: self.x - 1, y: self.y });
        proof {
            assert(r@ =~= self.spec_neighbors());
        }
        r
    }

    /// Squared Euclidean distance.
    pub fn quad_distance(&self, other: Point) -> (d: CoordType)
        requires
            i16::MIN <= self.x - other.x <= i16::MAX,
            i16::MIN <= self.y - other.y <= i16::MAX,
            (self.x - other.x) * (self.x - other.x) + (self.y - other.y) * (self.y - other.y)
                <= i16::MAX,
        ensures
            d == (self.x - other.x) * (self.x - other.x) + (self.y - other.y) * (self.y
                - other.y),
    {
        let xdist = self.x - other.x;
        let ydist = self.y - other.y;
        proof {
            assert(xdist * xdist >= 0 && ydist * ydist >= 0) by (nonlinear_arith);
        }
        xdist * xdist + ydist * ydist
    }

    /// Manhattan distance.
    pub fn manhattan_distance(&self, other: Point) -> (d: CoordType)
        requires
            i16::MIN < self.x - other.x <= i16::MAX,
            i16::MIN < self.y - other.y <= i16::MAX,
            abs(self.x - other.x) + abs(self.y - other.y) <= i16::MAX,
        ensures
            d == abs(self.x - other.x) + abs(self.y - other.y),
    {
        let dx = self.x - other.x;
        let dy = self.y - other.y;
        let adx = if dx < 0 { -dx } else { dx };
        let ady = if dy < 0 { -dy } else { dy };
        adx + ady
    }

    /// Per-axis minimum.
    pub fn min_bound(&self, other: Point) -> (p: Point)
        ensures
            p.x == if self.x <= other.x { self.x } else { other.x },
            p.y == if self.y <= other.y { self.y } else { other.y },
    {
        Point {
            x: if self.x <= other.x { self.x } else { other.x },
            y: if self.y <= other.y { self.y } else { other.y },
        }
    }

    /// Per-axis maximum.
    pub fn max_bound(&self, other: Point) -> (p: Point)
        ensures
            p.x == if self.x >= other.x { self.x } else { other.x },
            p.y == if self.y >= other.y { self.y } else { other.y },
    {
        Point {
            x: if self.x >= other.x { self.x } else { other.x },
            y: if self.y >= other.y { self.y } else { other.y },
        }
    }

    /// Per-axis modulo wraparound, for toroidal maps: each coordinate is
    /// brought into `[0, rhs)` on its axis.
    pub fn rem_euclid(self, rhs: Point) -> (p: Point)
        requires
            rhs.x >= 1,
            rhs.y >= 1,
        ensures
            p.x == self.x as int % rhs.x as int,
            p.y == self.y as int % rhs.y as int,
    {
        Point { x: rem_axis(self.x, rhs.x), y: rem_axis(self.y, rhs.y) }
    }
}

/// The mathematical remainder of one coordinate by a positive modulus.
fn rem_axis(v: i16, m: i16) -> (r: i16)
    requires
        m >= 1,
    ensures
        r == v as int % m as int,
{
    let vv = v as i32;
    let mm = m as u32;
    if vv >= 0 {
        ((vv as u32) % mm) as i16
    } else {
        proof {
            lemma_mod_of_negative(v as int, m as int);
        }
        let rest = ((-vv) as u32) % mm;
        if rest == 0 {
            0
        } else {
            (mm - rest) as i16
        }
    }
}

/// Flat-buffer 2-D grid: `entries` holds `spec_height()` rows of stride
/// `line_width`, of which the first `entry_len` cells are logical cells.
pub struct Tiles<T> {
    pub entry_len: usize,
    pub line_width: usize,
    pub entries: Vec<T>,
}

impl<T> Tiles<T> {
    /// The stride invariant: a positive stride no smaller than the logical
    /// width, and a buffer of whole rows (`entries.len() == stride * height`).
    pub open spec fn wf(&self) -> bool {
        &&& 1 <= self.line_width
        &&& self.entry_len <= self.line_width
        &&& self.entries@.len() as int % (self.line_width as int) == 0
    }

    /// Number of rows.
    pub open spec fn spec_height(&self) -> int {
        self.entries@.len() as int / self.line_width as int
    }

    /// Whether `p` is a logical cell of the grid.
    pub open spec fn spec_contains(&self, p: Point) -> bool {
        0 <= p.x < self.entry_len && 0 <= p.y < self.spec_height()
    }

    /// Buffer offset of `p`, through the stride.
    pub open spec fn spec_index_for(&self, p: Point) -> int {
        p.y * self.line_width + p.x
    }

    /// The cell at `p`.
    pub open spec fn spec_at(&self, p: Point) -> T {
        self.entries@[self.spec_index_for(p)]
    }

    /// Coordinate bounds under which coordinates and sizes fit `CoordType`.
    pub open spec fn coord_bounded(&self) -> bool {
        self.entry_len <= i16::MAX && self.spec_height() <= i16::MAX
    }

    /// Logical row width.
    pub fn width(&self) -> (w: usize)
        ensures
            w == self.entry_len,
    {
        self.entry_len
    }

    /// Number of rows, derived from the buffer length and the stride.
    pub fn height(&self) -> (h: usize)
        requires
            1 <= self.line_width,
        ensures
            h == self.spec_height(),
    {
        self.entries.len() / self.line_width
    }

    /// Logical size as a point.
    pub fn size(&self) -> (p: Point)
        requires
            self.wf(),
            self.coord_bounded(),
        ensures
            p.x == self.entry_len,
            p.y == self.spec_height(),
    {
        Point { x: self.entry_len as i16, y: (self.entries.len() / self.line_width) as i16 }
    }

    /// Whether `p` is a logical cell of the grid.
    pub fn contains(&self, point: Point) -> (r: bool)
        requires
            self.wf(),
            self.coord_bounded(),
        ensures
            r == self.spec_contains(point),
    {
        point.x >= 0 && point.y >= 0 && point.x < self.entry_len as CoordType && point.y < (
        self.entries.len() / self.line_width) as CoordType
    }

    /// A logical cell's buffer offset lies inside the buffer.
    pub proof fn lemma_index_in_bounds(&self, p: Point)
        requires
            self.wf(),
            self.spec_contains(p),
        ensures
            0 <= p.y * self.line_width,
            0 <= self.spec_index_for(p) < self.entries@.len(),
    {
        let lw = self.line_width as int;
        let len = self.entries@.len() as int;
        let h = self.spec_height();
        lemma_fundamental_div_mod(len, lw);
        assert(len == lw * h);
        assert(0 <= p.y * lw + p.x < len) by (nonlinear_arith)
            requires
                0 <= p.x < lw,
                0 <= p.y < h,
                len == lw * h,
                1 <= lw,
        ;
    }

    /// Buffer offset of `p`, through the stride.
    pub fn index_for(&self, point: Point) -> (idx: usize)
        requires
            0 <= point.x,
            0 <= point.y,
            point.y * self.line_width + point.x <= usize::MAX,
        ensures
            idx == self.spec_index_for(point),
    {
        (point.y as usize) * self.line_width + (point.x as usize)
    }

    /// Coordinates of a buffer offset, through the stride.
    pub fn coords_for(&self, idx: usize) -> (p: Point)
        requires
            1 <= self.line_width,
            self.line_width <= i16::MAX,
            idx / self.line_width <= i16::MAX,
        ensures
            p.x == idx as int % self.line_width as int,
            p.y == idx as int / self.line_width as int,
    {
        Point {
            x: (idx % self.line_width) as CoordType,
            y: (idx / self.line_width) as CoordType,
        }
    }

    /// Checked cell read: the cell at `p`, or nothing when `p` lies outside
    /// the logical bounds.
    pub fn get(&self, point: Point) -> (r: Option<&T>)
        requires
            self.wf(),
            self.coord_bounded(),
        ensures
            match r {
                Some(v) => self.spec_contains(point) && *v == self.spec_at(point),
                None => !self.spec_contains(point),
            },
    {
        if self.contains(point) {
            let n = self.entries.len();
            proof {
                self.lemma_index_in_bounds(point);
                assert(0 <= point.y * self.line_width + point.x < n);
            }
            Some(&self.entries[(point.y as usize) * self.line_width + (point.x as usize)])
        } else {
            None
        }
    }

    /// Unchecked cell read: the caller must already have bounds-checked.
    pub fn at(&self, point: Point) -> (r: &T)
        requires
            self.wf(),
            self.spec_contains(point),
        ensures
            *r == self.spec_at(point),
    {
        let n = self.entries.len();
        proof {
            self.lemma_index_in_bounds(point);
            assert(0 <= point.y * self.line_width + point.x < n);
        }
        &self.entries[(point.y as usize) * self.line_width + (point.x as usize)]
    }

    /// Cell write: the caller must already have bounds-checked.
    pub fn set(&mut self, point: Point, value: T)
        requires
            old(self).wf(),
            old(self).spec_contains(point),
        ensures
            final(self).wf(),
            final(self).entry_len == old(self).entry_len,
            final(self).line_width == old(self).line_width,
            final(self).entries@ == old(self).entries@.update(
                old(self).spec_index_for(point),
                value,
            ),
            final(self).spec_height() == old(self).spec_height(),
    {
        let n = self.entries.len();
        proof {
            self.lemma_index_in_bounds(point);
            assert(0 <= point.y * self.line_width + point.x < n);
        }
        let idx = (point.y as usize) * self.line_width + (point.x as usize);
        self.entries[idx] = value;
    }
}

impl Tiles<u8> {
    /// Finds the first logical cell, in row-major order, that holds `value`.
    #[verifier::loop_isolation(false)]
    pub fn find_cell(&self, value: u8) -> (r: Option<Point>)
        requires
            self.wf(),
            self.coord_bounded(),
        ensures
            match r {
                Some(p) => {
                    &&& self.spec_contains(p)
                    &&& self.spec_at(p) == value
                    &&& forall|q: Point|
                        self.spec_contains(q) && (q.y < p.y || (q.y == p.y && q.x < p.x))
                            ==> #[trigger] self.spec_at(q) != value
                },
                None => forall|q: Point| self.spec_contains(q) ==> #[trigger] self.spec_at(q)
                    != value,
            },
    {
        let h = self.entries.len() / self.line_width;
        let mut y: usize = 0;
        while y < h
            invariant
                y <= h,
                forall|q: Point|
                    self.spec_contains(q) && q.y < y ==> #[trigger] self.spec_at(q) != value,
            decreases h - y,
        {
            let mut x: usize = 0;
            while x < self.entry_len
                invariant
                    x <= self.entry_len,
                    y < h,
                    forall|q: Point|
                        self.spec_contains(q) && q.y < y ==> #[trigger] self.spec_at(q) != value,
                    forall|q: Point|
                        self.spec_contains(q) && q.y == y && q.x < x ==> #[trigger] self.spec_at(
                            q,
                        ) != value,
                decreases self.entry_len - x,
            {
                let p = Point { x: x as i16, y: y as i16 };
                if *self.at(p) == value {
                    return Some(p);
                }
                x = x + 1;
            }
            y = y + 1;
        }
        None
    }

    /// Builds a grid over the bytes of a rectangular text map: the row width
    /// is the offset of the first newline, and the stride absorbs it.
    #[verifier::loop_isolation(false)]
    pub fn load(entries: Vec<u8>) -> (t: Tiles<u8>)
        requires
            exists|w: int| row_terminated(entries@, w),
        ensures
            t.entries@ == entries@,
            row_terminated(entries@, t.entry_len as int),
            t.line_width == t.entry_len + 1,
            t.wf(),
    {
        let ghost w = choose|w: int| row_terminated(entries@, w);
        let n = entries.len();
        proof {
            lemma_small_mod(w as nat, (w + 1) as nat);
            assert(entries@[w] == 10);
            assert(w < n);
        }
        let mut i: usize = 0;
        while entries[i] != 10
            invariant
                0 <= i <= w,
                forall|k: int| 0 <= k < i ==> entries@[k] != 10,
            decreases w - i,
        {
            proof {
                if i == w {
                    assert(false);
                }
            }
            i = i + 1;
        }
        proof {
            if i < w {
                lemma_small_mod(i as nat, (w + 1) as nat);
                assert(false);
            }
            assert(i == w);
        }
        Tiles { entry_len: i, line_width: i + 1, entries }
    }

    /// Builds a grid directly over a buffer of whole rows: `entry_len` logical
    /// cells and `terminator_len` padding cells per row.
    pub fn from_vec(entries: Vec<u8>, entry_len: usize, terminator_len: usize) -> (t: Tiles<u8>)
        requires
            1 <= entry_len + terminator_len <= usize::MAX,
            entries@.len() as int % (entry_len + terminator_len) == 0,
        ensures
            t.entries@ == entries@,
            t.entry_len == entry_len,
            t.line_width == entry_len + terminator_len,
            t.wf(),
    {
        Tiles { entry_len, line_width: entry_len + terminator_len, entries }
    }
}

impl<T: Copy> Tiles<T> {
    /// Allocates a `width` by `height` grid filled with `initial`, reserving
    /// one padding column per row so that both loaded and synthesized grids
    /// share the same addressing.
    #[verifier::loop_isolation(false)]
    pub fn new(width: usize, height: usize, initial: T) -> (t: Tiles<T>)
        requires
            width < usize::MAX,
            (width + 1) * height <= usize::MAX,
        ensures
            t.wf(),
            t.entry_len == width,
            t.line_width == width + 1,
            t.entries@.len() == (width + 1) * height,
            t.spec_height() == height,
            forall|k: int| 0 <= k < t.entries@.len() ==> t.entries@[k] == initial,
    {
        let line_width = width + 1;
        let total = line_width * height;
        let mut entries: Vec<T> = Vec::new();
        while entries.len() < total
            invariant
                entries@.len() <= total,
                forall|k: int| 0 <= k < entries@.len() ==> entries@[k] == initial,
            decreases total - entries@.len(),
        {
            entries.push(initial);
        }
        proof {
            lemma_fundamental_div_mod_converse_div(total as int, line_width as int, height as int, 0);
            lemma_fundamental_div_mod_converse_mod(total as int, line_width as int, height as int, 0);
        }
        Tiles { entry_len: width, line_width, entries }
    }

    /// Overwrites every buffer cell with `initial`, keeping the geometry.
    #[verifier::loop_isolation(false)]
    pub fn reset(&mut self, initial: T)
        ensures
            final(self).entry_len == old(self).entry_len,
            final(self).line_width == old(self).line_width,
            final(self).entries@.len() == old(self).entries@.len(),
            forall|k: int| 0 <= k < final(self).entries@.len() ==> final(self).entries@[k]
                == initial,
    {
        let n = self.entries.len();
        let mut i: usize = 0;
        while i < n
            invariant
                i <= n,
                self.entries@.len() == n,
                self.entry_len == old(self).entry_len,
                self.line_width == old(self).line_width,
                forall|k: int| 0 <= k < i ==> self.entries@[k] == initial,
            decreases n - i,
        {
            self.entries[i] = initial;
            i = i + 1;
        }
    }

    /// Extracts the sub-grid `[x, mx) x [y, my)` into a new, tightly packed
    /// grid (stride equal to width): cell `(i, j)` of the result is cell
    /// `(x + i, y + j)` of `self`.
    #[verifier::loop_isolation(false)]
    pub fn region(self, x: usize, y: usize, mx: usize, my: usize) -> (t: Tiles<T>)
        requires
            self.wf(),
            x < mx <= self.entry_len,
            y <= my <= self.spec_height(),
        ensures
            t.wf(),
            t.entry_len == mx - x,
            t.line_width == mx - x,
            t.entries@.len() == (mx - x) * (my - y),
            t.spec_height() == my - y,
            forall|i: int, j: int|
                0 <= i < mx - x && 0 <= j < my - y ==> #[trigger] t.entries@[j * (mx - x) + i]
                    == self.entries@[(y + j) * self.line_width + (x + i)],
    {
        let w = mx - x;
        let h = my - y;
        let mut entries: Vec<T> = Vec::new();
        let mut j: usize = 0;
        while j < h
            invariant
                j <= h,
                entries@.len() == j * w,
                forall|i2: int, j2: int|
                    0 <= i2 < w && 0 <= j2 < j ==> #[trigger] entries@[j2 * w + i2]
                        == self.entries@[(y + j2) * self.line_width + (x + i2)],
            decreases h - j,
        {
            let mut i: usize = 0;
            while i < w
                invariant
                    i <= w,
                    j < h,
                    entries@.len() == j * w + i,
                    forall|i2: int, j2: int|
                        0 <= i2 < w && 0 <= j2 < j ==> #[trigger] entries@[j2 * w + i2]
                            == self.entries@[(y + j2) * self.line_width + (x + i2)],
                    forall|i2: int|
                        0 <= i2 < i ==> #[trigger] entries@[j * w + i2] == self.entries@[(y + j)
                            * self.line_width + (x + i2)],
                decreases w - i,
            {
                proof {
                    lemma_cell_in_bounds(
                        self.entries@.len() as int,
                        self.line_width as int,
                        x + i,
                        y + j,
                    );
                }
                let n = self.entries.len();
                let idx = (y + j) * self.line_width + (x + i);
                let ghost pre = entries@;
                entries.push(self.entries[idx]);
                proof {
                    assert forall|i2: int, j2: int|
                        0 <= i2 < w && 0 <= j2 < j implies #[trigger] entries@[j2 * w + i2]
                        == self.entries@[(y + j2) * self.line_width + (x + i2)] by {
                        assert(0 <= j2 * w + i2 && j2 * w + i2 < j * w) by (nonlinear_arith)
                            requires
                                0 <= i2 < w,
                                0 <= j2,
                                j2 + 1 <= j,
                        ;
                        assert(entries@[j2 * w + i2] == pre[j2 * w + i2]);
                    }
                }
                i = i + 1;
            }
            j = j + 1;
            proof {
                assert(j * w == (j - 1) * w + w) by (nonlinear_arith);
            }
        }
        proof {
            lemma_fundamental_div_mod_converse_div((w * h) as int, w as int, h as int, 0);
            lemma_fundamental_div_mod_converse_mod((w * h) as int, w as int, h as int, 0);
            assert(h * w == w * h) by (nonlinear_arith);
        }
        Tiles { entry_len: w, line_width: w, entries }
    }

    /// Blits the logical rows of `other` into `self` starting at `(x, y)`,
    /// leaving every cell outside that rectangle unchanged.
    #[verifier::loop_isolation(false)]
    pub fn copy(&mut self, x: usize, y: usize, other: &Tiles<T>)
        requires
            old(self).wf(),
            other.wf(),
            x + other.entry_len <= old(self).line_width,
            y + other.spec_height() <= old(self).spec_height(),
        ensures
            final(self).wf(),
            final(self).entry_len == old(self).entry_len,
            final(self).line_width == old(self).line_width,
            final(self).entries@.len() == old(self).entries@.len(),
            forall|i: int, j: int|
                0 <= i < other.entry_len && 0 <= j < other.spec_height()
                    ==> #[trigger] final(self).entries@[(y + j) * old(self).line_width + (x + i)]
                    == other.entries@[j * other.line_width + i],
            forall|px: int, py: int|
                0 <= px < old(self).line_width && 0 <= py < old(self).spec_height() && !(x <= px
                    < x + other.entry_len && y <= py < y + other.spec_height())
                    ==> #[trigger] final(self).entries@[py * old(self).line_width + px]
                    == old(self).entries@[py * old(self).line_width + px],
    {
        let ow = other.entry_len;
        let oh = other.entries.len() / other.line_width;
        let lw = self.line_width;
        let mut j: usize = 0;
        while j < oh
            invariant
                j <= oh,
                self.entry_len == old(self).entry_len,
                self.line_width == old(self).line_width,
                self.entries@.len() == old(self).entries@.len(),
                forall|i2: int, j2: int|
                    0 <= i2 < ow && 0 <= j2 < j ==> #[trigger] self.entries@[(y + j2) * lw + (x
                        + i2)] == other.entries@[j2 * other.line_width + i2],
                forall|px: int, py: int|
                    0 <= px < lw && 0 <= py < old(self).spec_height() && !(x <= px < x + ow && y
                        <= py < y + j) ==> #[trigger] self.entries@[py * lw + px]
                        == old(self).entries@[py * lw + px],
            decreases oh - j,
        {
            let mut i: usize = 0;
            while i < ow
                invariant
                    i <= ow,
                    j < oh,
                    self.entry_len == old(self).entry_len,
                    self.line_width == old(self).line_width,
                    self.entries@.len() == old(self).entries@.len(),
                    forall|i2: int, j2: int|
                        0 <= i2 < ow && 0 <= j2 < j ==> #[trigger] self.entries@[(y + j2) * lw + (
                        x + i2)] == other.entries@[j2 * other.line_width + i2],
                    forall|i2: int|
                        0 <= i2 < i ==> #[trigger] self.entries@[(y + j) * lw + (x + i2)]
                            == other.entries@[j * other.line_width + i2],
                    forall|px: int, py: int|
                        0 <= px < lw && 0 <= py < old(self).spec_height() && !(x <= px < x + ow
                            && y <= py < y + j) && !(x <= px < x + i && py == y + j)
                            ==> #[trigger] self.entries@[py * lw + px] == old(self).entries@[py
                            * lw + px],
                decreases ow - i,
            {
                proof {
                    lemma_cell_in_bounds(self.entries@.len() as int, lw as int, x + i, y + j);
                    lemma_cell_in_bounds(
                        other.entries@.len() as int,
                        other.line_width as int,
                        i as int,
                        j as int,
                    );
                }
                let n = self.entries.len();
                let on = other.entries.len();
                let dst = (y + j) * lw + (x + i);
                let src = j * other.line_width + i;
                let v = other.entries[src];
                let ghost pre = self.entries@;
                self.entries[dst] = v;
                proof {
                    assert(self.entries@ == pre.update(dst as int, v));
                    assert forall|px: int, py: int|
                        0 <= px < lw && 0 <= py < old(self).spec_height() && !(x <= px < x + ow
                            && y <= py < y + j) && !(x <= px < x + i + 1 && py == y + j)
                            implies #[trigger] self.entries@[py * lw + px]
                        == old(self).entries@[py * lw + px] by {
                        let k = py * lw + px;
                        if k == dst {
                            lemma_flat_index_injective(
                                lw as int,
                                px,
                                py,
                                x + i as int,
                                y + j as int,
                            );
                        } else {
                            lemma_cell_in_bounds(pre.len() as int, lw as int, px, py);
                            assert(self.entries@[k] == pre[k]);
                            assert(pre[k] == old(self).entries@[k]);
                        }
                    }
                    assert forall|i2: int, j2: int|
                        0 <= i2 < ow && 0 <= j2 < j implies #[trigger] self.entries@[(y + j2) * lw
                        + (x + i2)] == other.entries@[j2 * other.line_width + i2] by {
                        let k = (y + j2) * lw + (x + i2);
                        if k == dst {
                            lemma_flat_index_injective(
                                lw as int,
                                x + i2,
                                y + j2,
                                x + i as int,
                                y + j as int,
                            );
                        } else {
                            lemma_cell_in_bounds(pre.len() as int, lw as int, x + i2, y + j2);
                            assert(self.entries@[k] == pre[k]);
                            assert(pre[k] == other.entries@[j2 * other.line_width + i2]);
                        }
                    }
                    assert forall|i2: int|
                        0 <= i2 < i + 1 implies #[trigger] self.entries@[(y + j) * lw + (x + i2)]
                        == other.entries@[j * other.line_width + i2] by {
                        let k = (y + j) * lw + (x + i2);
                        if i2 == i {
                            assert(self.entries@[k] == v);
                        } else if k == dst {
                            lemma_flat_index_injective(
                                lw as int,
                                x + i2,
                                y + j as int,
                                x + i as int,
                                y + j as int,
                            );
                        } else {
                            lemma_cell_in_bounds(pre.len() as int, lw as int, x + i2, y + j);
                            assert(self.entries@[k] == pre[k]);
                            assert(pre[k] == other.entries@[j * other.line_width + i2]);
                        }
                    }
                }
                i = i + 1;
            }
            j = j + 1;
        }
    }

    /// Reads the cells that a stepper's offsets address, in order.
    #[verifier::loop_isolation(false)]
    pub fn iter_with(&self, stepper: &Stepper) -> (r: Vec<T>)
        requires
            stepper.wf(),
            forall|k: int|
                0 <= k < stepper.spec_len() ==> 0 <= #[trigger] stepper.spec_indices()[k]
                    < self.entries@.len(),
        ensures
            r@.len() == stepper.spec_len(),
            forall|k: int|
                0 <= k < r@.len() ==> #[trigger] r@[k] == self.entries@[stepper.spec_indices()[k]],
    {
        let idxs = stepper.iter();
        let mut r: Vec<T> = Vec::new();
        let mut k: usize = 0;
        while k < idxs.len()
            invariant
                k <= idxs@.len(),
                r@.len() == k,
                forall|k2: int|
                    0 <= k2 < k ==> #[trigger] r@[k2]
                        == self.entries@[stepper.spec_indices()[k2]],
            decreases idxs@.len() - k,
        {
            let idx = idxs[k];
            r.push(self.entries[idx]);
            k = k + 1;
        }
        r
    }
}

impl<T> Tiles<T> {
    /// One stepper per row, each addressing the row's logical cells.
    #[verifier::loop_isolation(false)]
    pub fn rows_steppers(&self) -> (r: Vec<Stepper>)
        requires
            self.wf(),
        ensures
            r@.len() == self.spec_height(),
            forall|yy: int|
                0 <= yy < r@.len() ==> {
                    &&& (#[trigger] r@[yy]).wf()
                    &&& r@[yy].spec_len() == self.entry_len
                    &&& forall|k: int|
                        0 <= k < self.entry_len ==> #[trigger] r@[yy].spec_indices()[k] == yy
                            * self.line_width + k
                },
    {
        let h = self.entries.len() / self.line_width;
        let mut r: Vec<Stepper> = Vec::new();
        let mut y: usize = 0;
        while y < h
            invariant
                y <= h,
                r@.len() == y,
                forall|yy: int|
                    0 <= yy < y ==> {
                        &&& (#[trigger] r@[yy]).wf()
                        &&& r@[yy].spec_len() == self.entry_len
                        &&& forall|k: int|
                            0 <= k < self.entry_len ==> #[trigger] r@[yy].spec_indices()[k] == yy
                                * self.line_width + k
                    },
            decreases h - y,
        {
            proof {
                lemma_fundamental_div_mod(self.entries@.len() as int, self.line_width as int);
                assert(y * self.line_width + self.line_width <= self.entries@.len())
                    by (nonlinear_arith)
                    requires
                        self.entries@.len() == self.line_width * (self.entries@.len() as int
                            / self.line_width as int),
                        0 <= y < self.entries@.len() as int / self.line_width as int,
                        1 <= self.line_width,
                ;
            }
            let n = self.entries.len();
            r.push(Stepper::new_horiz(y, self.line_width, self.entry_len));
            y = y + 1;
        }
        r
    }

    /// One stepper per column, each addressing the column's cells.
    #[verifier::loop_isolation(false)]
    pub fn col_steppers(&self) -> (r: Vec<Stepper>)
        requires
            self.wf(),
            self.entries@.len() + self.entry_len <= usize::MAX,
        ensures
            r@.len() == self.entry_len,
            forall|xx: int|
                0 <= xx < r@.len() ==> {
                    &&& (#[trigger] r@[xx]).wf()
                    &&& r@[xx].spec_len() == self.spec_height()
                    &&& forall|k: int|
                        0 <= k < self.spec_height() ==> #[trigger] r@[xx].spec_indices()[k] == xx
                            + k * self.line_width
                },
    {
        let total = self.entries.len();
        let mut r: Vec<Stepper> = Vec::new();
        let mut x: usize = 0;
        while x < self.entry_len
            invariant
                x <= self.entry_len,
                r@.len() == x,
                forall|xx: int|
                    0 <= xx < x ==> {
                        &&& (#[trigger] r@[xx]).wf()
                        &&& r@[xx].spec_len() == self.spec_height()
                        &&& forall|k: int|
                            0 <= k < self.spec_height() ==> #[trigger] r@[xx].spec_indices()[k]
                                == xx + k * self.line_width
                    },
            decreases self.entry_len - x,
        {
            r.push(Stepper::new_vert(x, self.line_width, total));
            x = x + 1;
        }
        r
    }
}

/// A lazy row or column descriptor: the buffer offsets `start`,
/// `start + step`, ..., up to (excluding) `end`. It is a stateless value, so
/// materializing it twice replays the same offsets.
#[derive(Debug)]
pub struct Stepper {
    start: usize,
    end: usize,
    step: usize,
}

impl Stepper {
    /// A positive step that divides the span exactly.
    pub closed spec fn wf(&self) -> bool {
        &&& 1 <= self.step
        &&& self.start <= self.end
        &&& (self.end - self.start) as int % self.step as int == 0
    }

    /// How many offsets the stepper produces.
    pub closed spec fn spec_len(&self) -> int {
        (self.end - self.start) as int / self.step as int
    }

    /// The offsets the stepper produces, in order.
    pub closed spec fn spec_indices(&self) -> Seq<int> {
        Seq::new(self.spec_len() as nat, |k: int| self.start + k * self.step)
    }

    /// Row `y` of a grid with stride `line_width` and `row_len` logical cells.
    fn new_horiz(y: usize, line_width: usize, row_len: usize) -> (s: Stepper)
        requires
            y * line_width + row_len <= usize::MAX,
            0 <= y * line_width,
        ensures
            s.wf(),
            s.spec_len() == row_len,
            forall|k: int|
                0 <= k < row_len ==> #[trigger] s.spec_indices()[k] == y * line_width + k,
    {
        let start = y * line_width;
        let s = Stepper { start, end: start + row_len, step: 1 };
        proof {
            lemma_fundamental_div_mod_converse_div(row_len as int, 1, row_len as int, 0);
            lemma_fundamental_div_mod_converse_mod(row_len as int, 1, row_len as int, 0);
        }
        s
    }

    /// Column `x` of a grid with stride `line_width` and `total_len` buffer
    /// cells.
    pub fn new_vert(x: usize, line_width: usize, total_len: usize) -> (s: Stepper)
        requires
            1 <= line_width,
            total_len as int % line_width as int == 0,
            total_len + x <= usize::MAX,
        ensures
            s.wf(),
            s.spec_len() == total_len as int / line_width as int,
            forall|k: int|
                0 <= k < s.spec_len() ==> #[trigger] s.spec_indices()[k] == x + k * line_width,
    {
        Stepper { start: x, end: total_len + x, step: line_width }
    }

    /// How many offsets the stepper produces.
    pub fn len(&self) -> (n: usize)
        requires
            self.wf(),
        ensures
            n == self.spec_len(),
    {
        (self.end - self.start) / self.step
    }

    /// Materializes the offsets, in order.
    #[verifier::loop_isolation(false)]
    pub fn iter(&self) -> (r: Vec<usize>)
        requires
            self.wf(),
        ensures
            r@.len() == self.spec_len(),
            forall|k: int| 0 <= k < r@.len() ==> #[trigger] r@[k] == self.spec_indices()[k],
    {
        let mut r: Vec<usize> = Vec::new();
        let mut idx = self.start;
        proof {
            assert(r@.len() * self.step == 0) by (nonlinear_arith)
                requires
                    r@.len() == 0,
            ;
        }
        while idx < self.end
            invariant
                self.start <= idx <= self.end,
                (self.end - idx) as int % self.step as int == 0,
                idx == self.start + r@.len() * self.step,
                forall|k: int|
                    0 <= k < r@.len() ==> #[trigger] r@[k] == self.start + k * self.step,
            decreases self.end - idx,
        {
            proof {
                let m = (self.end - idx) as int;
                let st = self.step as int;
                lemma_fundamental_div_mod(m, st);
                assert(st <= m) by (nonlinear_arith)
                    requires
                        m == st * (m / st),
                        1 <= st,
                        1 <= m,
                ;
                assert(m - st == (m / st - 1) * st) by (nonlinear_arith)
                    requires
                        m == st * (m / st),
                ;
                lemma_fundamental_div_mod_converse_mod(m - st, st, m / st - 1, 0);
                assert((r@.len() + 1) * self.step == r@.len() * self.step + self.step)
                    by (nonlinear_arith);
            }
            r.push(idx);
            idx = idx + self.step;
        }
        proof {
            lemma_fundamental_div_mod_converse_div(
                (self.end - self.start) as int,
                self.step as int,
                r@.len() as int,
                0,
            );
        }
        r
    }
}

/// Grid round-trip: a grid built over a rectangular text block of width
/// `g.entry_len` holds, at every logical cell, exactly the block's character
/// there, and never the line terminator.
pub proof fn lemma_load_round_trip(g: Tiles<u8>, s: Seq<u8>, p: Point)
    requires
        row_terminated(s, g.entry_len as int),
        g.entries@ == s,
        g.line_width == g.entry_len + 1,
        0 <= p.x < g.entry_len,
        0 <= p.y < s.len() as int / (g.entry_len + 1),
    ensures
        g.spec_contains(p),
        g.spec_at(p) == s[p.y * (g.entry_len + 1) + p.x],
        g.spec_at(p) != 10,
{
    let w = g.entry_len as int;
    let idx = p.y * (w + 1) + p.x;
    lemma_cell_in_bounds(s.len() as int, w + 1, p.x as int, p.y as int);
    lemma_fundamental_div_mod_converse_mod(idx, w + 1, p.y as int, p.x as int);
    assert(idx % (w + 1) == p.x);
    assert(s[idx] != 10);
}

/// Stride invariant: a well-formed grid's buffer is exactly `stride * height`
/// cells, and the logical width never exceeds the stride.
pub proof fn lemma_stride_invariant<T>(g: &Tiles<T>)
    requires
        g.wf(),
    ensures
        g.entries@.len() == g.line_width * g.spec_height(),
        g.entry_len <= g.line_width,
{
    lemma_fundamental_div_mod(g.entries@.len() as int, g.line_width as int);
}

/// Region extraction correctness, in cell terms: when the flat cells of a
/// tightly packed grid `t` agree with the `(x, y)` rectangle of `g` (what
/// `region` ensures), reading any cell `p` of `t` reads cell
/// `(x + p.x, y + p.y)` of `g`.
pub proof fn lemma_region_round_trip<T>(g: &Tiles<T>, t: &Tiles<T>, x: int, y: int, p: Point)
    requires
        t.wf(),
        t.line_width == t.entry_len,
        forall|i: int, j: int|
            0 <= i < t.entry_len && 0 <= j < t.spec_height() ==> #[trigger] t.entries@[j
                * t.line_width + i] == g.entries@[(y + j) * g.line_width + (x + i)],
        t.spec_contains(p),
    ensures
        t.spec_at(p) == g.entries@[(y + p.y) * g.line_width + (x + p.x)],
{
    assert(t.entries@[p.y * t.line_width + p.x] == g.entries@[(y + p.y) * g.line_width + (x
        + p.x)]);
}

/// Coordinate bijection: for every buffer offset `k`, mapping it to
/// coordinates through the stride and back gives `k` again.
pub proof fn lemma_coords_index_bijection<T>(g: &Tiles<T>, k: int)
    requires
        g.wf(),
        0 <= k < g.entries@.len(),
        g.line_width <= i16::MAX,
        g.spec_height() <= i16::MAX,
    ensures
        ({
            let p = Point {
                x: (k % g.line_width as int) as i16,
                y: (k / g.line_width as int) as i16,
            };
            &&& 0 <= p.x < g.line_width
            &&& 0 <= p.y < g.spec_height()
            &&& g.spec_index_for(p) == k
        }),
{
    let lw = g.line_width as int;
    let len = g.entries@.len() as int;
    lemma_fundamental_div_mod(k, lw);
    lemma_fundamental_div_mod(len, lw);
    vstd::arithmetic::div_mod::lemma_mod_bound(k, lw);
    assert(0 <= k / lw < len / lw) by (nonlinear_arith)
        requires
            k == lw * (k / lw) + k % lw,
            len == lw * (len / lw),
            0 <= k % lw < lw,
            0 <= k < len,
            1 <= lw,
    ;
    assert(((k % lw) as i16) as int == k % lw);
    assert(((k / lw) as i16) as int == k / lw);
    assert((k / lw) * lw + k % lw == k) by (nonlinear_arith)
        requires
            k == lw * (k / lw) + k % lw,
    ;
}

} // verus!
