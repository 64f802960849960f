//! Lines of sight between asteroids: a sight vector is walked back one
//! lattice step at a time by dividing out its greatest common divisor.
use vstd::prelude::*;

verus! {

/// Euclid's greatest common divisor, for `a >= b >= 0`.
pub open spec fn spec_gcd(a: int, b: int) -> int
    decreases b,
{
    if b <= 0 {
        a
    } else {
        spec_gcd(b, a % b)
    }
}

/// The divisor of a positive pair is positive.
pub proof fn lemma_gcd_pos(a: int, b: int)
    requires
        0 <= b,
        1 <= a,
    ensures
        spec_gcd(a, b) >= 1,
    decreases b,
{
    if b >= 1 {
        vstd::arithmetic::div_mod::lemma_mod_bound(a, b);
        lemma_gcd_pos(b, a % b);
    }
}

/// Magnitude of `v` as an `int`.
pub open spec fn spec_abs(v: int) -> int {
    if v >= 0 {
        v
    } else {
        -v
    }
}

/// Truncating division, as machine division of signed values rounds.
pub open spec fn div_trunc(x: int, g: int) -> int {
    if x >= 0 {
        x / g
    } else {
        -((-x) / g)
    }
}

/// Greatest common divisor of the magnitudes of a coordinate pair.
#[verifier::loop_isolation(false)]
pub fn gcd(xy: (i32, i32)) -> (r: i32)
    requires
        xy.0 > i32::MIN,
        xy.1 > i32::MIN,
    ensures
        r == spec_gcd(
            vstd::math::max(spec_abs(xy.0 as int), spec_abs(xy.1 as int)),
            vstd::math::min(spec_abs(xy.0 as int), spec_abs(xy.1 as int)),
        ),
        r >= 0,
{
    let (x, y) = xy;
    let ax: u32 = if x < 0 {
        (-x) as u32
    } else {
        x as u32
    };
    let ay: u32 = if y < 0 {
        (-y) as u32
    } else {
        y as u32
    };
    let (mut a, mut b) = if ax > ay {
        (ax, ay)
    } else {
        (ay, ax)
    };
    while b > 0
        invariant
            b <= a,
            a <= 0x7fffffff,
            spec_gcd(a as int, b as int) == spec_gcd(
                vstd::math::max(spec_abs(xy.0 as int), spec_abs(xy.1 as int)),
                vstd::math::min(spec_abs(xy.0 as int), spec_abs(xy.1 as int)),
            ),
        decreases b,
    {
        let m = a % b;
        a = b;
        b = m;
    }
    a as i32
}

/// One lattice step back towards the origin along the sight vector, or
/// nothing when the vector is already a single step.
pub fn one_down(xy: (i32, i32)) -> (r: Option<(i32, i32)>)
    requires
        xy.0 > i32::MIN,
        xy.1 > i32::MIN,
        !(xy.0 == 0 && xy.1 == 0),
    ensures
        ({
            let g = spec_gcd(
                vstd::math::max(spec_abs(xy.0 as int), spec_abs(xy.1 as int)),
                vstd::math::min(spec_abs(xy.0 as int), spec_abs(xy.1 as int)),
            );
            if g == 1 {
                r is None
            } else {
                r == Some(
                    (
                        (xy.0 - div_trunc(xy.0 as int, g)) as i32,
                        (xy.1 - div_trunc(xy.1 as int, g)) as i32,
                    ),
                )
            }
        }),
{
    let (x, y) = xy;
    let g = gcd(xy);
    proof {
        if x != 0 || y != 0 {
            lemma_gcd_pos(
                vstd::math::max(spec_abs(x as int), spec_abs(y as int)),
                vstd::math::min(spec_abs(x as int), spec_abs(y as int)),
            );
        }
    }
    if g == 1 {
        None
    } else {
        Some((x - div_by(x, g), y - div_by(y, g)))
    }
}

/// Truncating division of a coordinate by a positive divisor.
fn div_by(x: i32, g: i32) -> (r: i32)
    requires
        x > i32::MIN,
        g >= 1,
    ensures
        r == div_trunc(x as int, g as int),
        x >= 0 ==> 0 <= r <= x,
        x < 0 ==> x <= r <= 0,
{
    proof {
        if x >= 0 {
            vstd::arithmetic::div_mod::lemma_fundamental_div_mod(x as int, g as int);
            assert(x as int / g as int <= x) by (nonlinear_arith)
                requires
                    x == g * (x as int / g as int) + x as int % (g as int),
                    0 <= x as int % (g as int) < g,
                    g >= 1,
                    x >= 0,
            ;
        } else {
            vstd::arithmetic::div_mod::lemma_fundamental_div_mod(-x as int, g as int);
            assert((-x) as int / g as int <= -x) by (nonlinear_arith)
                requires
                    -x == g * ((-x) as int / g as int) + (-x) as int % (g as int),
                    0 <= (-x) as int % (g as int) < g,
                    g >= 1,
                    x < 0,
            ;
        }
    }
    if x >= 0 {
        ((x as u32) / (g as u32)) as i32
    } else {
        -((((-x) as u32) / (g as u32)) as i32)
    }
}

} // verus!
