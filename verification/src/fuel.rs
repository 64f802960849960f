//! Rocket fuel: each module needs fuel for its mass, and then fuel for that
//! fuel, down to nothing.
use vstd::prelude::*;

verus! {

/// Total fuel launched by a first requirement of `f`: each round adds the
/// requirement and re-weighs it, until a round needs nothing.
pub open spec fn fuel_from(f: int) -> int
    decreases vstd::math::max(f, 0),
{
    if f <= 0 {
        0
    } else {
        f + fuel_from(f / 3 - 2)
    }
}

/// The chain total stays between zero and twice its start.
pub proof fn lemma_fuel_from_bound(f: int)
    ensures
        0 <= fuel_from(f),
        f >= 0 ==> fuel_from(f) <= 2 * f,
    decreases vstd::math::max(f, 0),
{
    if f > 0 {
        lemma_fuel_from_bound(f / 3 - 2);
    }
}

/// Total fuel for a module of the given mass, counting the fuel's own fuel.
#[verifier::loop_isolation(false)]
pub fn fuel_requirements(mass: u32) -> (r: u32)
    ensures
        r == fuel_from(mass as int / 3 - 2),
{
    let mut fuel_total: u32 = 0;
    let mut mass_remaining: i64 = (mass / 3) as i64 - 2;
    proof {
        lemma_fuel_from_bound(mass as int / 3 - 2);
    }
    while mass_remaining > 0
        invariant
            mass_remaining <= mass / 3,
            fuel_total + fuel_from(mass_remaining as int) == fuel_from(mass as int / 3 - 2),
            fuel_total <= fuel_from(mass as int / 3 - 2),
        decreases vstd::math::max(mass_remaining as int, 0),
    {
        proof {
            lemma_fuel_from_bound(mass_remaining as int);
            lemma_fuel_from_bound(mass_remaining as int / 3 - 2);
        }
        fuel_total = fuel_total + (mass_remaining as u32);
        mass_remaining = (mass_remaining / 3) - 2;
    }
    fuel_total
}

} // verus!
