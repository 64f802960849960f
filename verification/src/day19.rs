//! Robot-factory blueprints: resources, purchase timing, and the depth-first
//! search for the most geodes a blueprint can crack.
use vstd::prelude::*;

verus! {

/// A bundle of the three mining resources.
#[derive(Debug, Clone, Copy, PartialEq, Eq, Hash, Structural)]
pub struct Resources {
    pub ore: u32,
    pub clay: u32,
    pub obsidian: u32,
}

impl Resources {
    /// Nothing of anything.
    pub fn new() -> (r: Resources)
        ensures
            r == (Resources { ore: 0, clay: 0, obsidian: 0 }),
    {
        Resources { ore: 0, clay: 0, obsidian: 0 }
    }

    /// The same bundle with `ore` more ore.
    pub fn add_ore(&self, ore: i32) -> (r: Resources)
        requires
            0 <= self.ore + ore <= u32::MAX,
        ensures
            r.ore == self.ore + ore,
            r.clay == self.clay,
            r.obsidian == self.obsidian,
    {
        Resources { ore: ((self.ore as i64) + (ore as i64)) as u32, ..*self }
    }

    /// The same bundle with `clay` more clay.
    pub fn add_clay(&self, clay: i32) -> (r: Resources)
        requires
            0 <= self.clay + clay <= u32::MAX,
        ensures
            r.ore == self.ore,
            r.clay == self.clay + clay,
            r.obsidian == self.obsidian,
    {
        Resources { clay: ((self.clay as i64) + (clay as i64)) as u32, ..*self }
    }

    /// The same bundle with `obsidian` more obsidian.
    pub fn add_obsidian(&self, obsidian: i32) -> (r: Resources)
        requires
            0 <= self.obsidian + obsidian <= u32::MAX,
        ensures
            r.ore == self.ore,
            r.clay == self.clay,
            r.obsidian == self.obsidian + obsidian,
    {
        Resources { obsidian: ((self.obsidian as i64) + (obsidian as i64)) as u32, ..*self }
    }

    /// Whether this bundle covers the cost `other` in every resource.
    pub fn can_buy(&self, other: &Resources) -> (r: bool)
        ensures
            r == (self.ore >= other.ore && self.clay >= other.clay && self.obsidian
                >= other.obsidian),
    {
        self.ore >= other.ore && self.clay >= other.clay && self.obsidian >= other.obsidian
    }

    /// Componentwise sum.
    pub fn add(self, rhs: Resources) -> (r: Resources)
        requires
            self.ore + rhs.ore <= u32::MAX,
            self.clay + rhs.clay <= u32::MAX,
            self.obsidian + rhs.obsidian <= u32::MAX,
        ensures
            r.ore == self.ore + rhs.ore,
            r.clay == self.clay + rhs.clay,
            r.obsidian == self.obsidian + rhs.obsidian,
    {
        Resources {
            ore: self.ore + rhs.ore,
            clay: self.clay + rhs.clay,
            obsidian: self.obsidian + rhs.obsidian,
        }
    }

    /// Componentwise difference.
    pub fn sub(self, rhs: Resources) -> (r: Resources)
        requires
            rhs.ore <= self.ore,
            rhs.clay <= self.clay,
            rhs.obsidian <= self.obsidian,
        ensures
            r.ore == self.ore - rhs.ore,
            r.clay == self.clay - rhs.clay,
            r.obsidian == self.obsidian - rhs.obsidian,
    {
        Resources {
            ore: self.ore - rhs.ore,
            clay: self.clay - rhs.clay,
            obsidian: self.obsidian - rhs.obsidian,
        }
    }

    /// Componentwise scaling.
    pub fn mul(self, rhs: u32) -> (r: Resources)
        requires
            self.ore * rhs <= u32::MAX,
            self.clay * rhs <= u32::MAX,
            self.obsidian * rhs <= u32::MAX,
        ensures
            r.ore == self.ore * rhs,
            r.clay == self.clay * rhs,
            r.obsidian == self.obsidian * rhs,
    {
        Resources { ore: self.ore * rhs, clay: self.clay * rhs, obsidian: self.obsidian * rhs }
    }
}

/// One robot blueprint: what each robot kind costs.
#[derive(Debug, Clone, Copy, PartialEq, Eq, Hash, Structural)]
pub struct Blueprint {
    pub id: u32,
    pub ore_cost: Resources,
    pub clay_cost: Resources,
    pub obsidian_cost: Resources,
    pub geodes_cost: Resources,
    pub max_ore_required: u32,
}

/// A search node: remaining minutes, banked resources, working robots, and
/// geodes already secured.
#[derive(Debug, Clone, Copy, PartialEq, Eq, Hash, Structural)]
pub struct SimState {
    pub time_remaining: u32,
    pub cash: Resources,
    pub bots: Resources,
    pub geodes: u32,
}

impl SimState {
    /// The starting state: one ore robot, nothing banked.
    pub fn new(time_remaining: u32) -> (s: SimState)
        ensures
            s.time_remaining == time_remaining,
            s.cash == (Resources { ore: 0, clay: 0, obsidian: 0 }),
            s.bots == (Resources { ore: 1, clay: 0, obsidian: 0 }),
            s.geodes == 0,
    {
        SimState {
            time_remaining,
            cash: Resources::new(),
            bots: Resources::new().add_ore(1),
            geodes: 0,
        }
    }

    /// Lets `n` minutes pass: every robot banks one unit per minute.
    pub fn steps(&self, n: u32) -> (s: SimState)
        requires
            n <= self.time_remaining,
            self.cash.ore + self.bots.ore * n <= u32::MAX,
            self.cash.clay + self.bots.clay * n <= u32::MAX,
            self.cash.obsidian + self.bots.obsidian * n <= u32::MAX,
        ensures
            s.time_remaining == self.time_remaining - n,
            s.cash.ore == self.cash.ore + self.bots.ore * n,
            s.cash.clay == self.cash.clay + self.bots.clay * n,
            s.cash.obsidian == self.cash.obsidian + self.bots.obsidian * n,
            s.bots == self.bots,
            s.geodes == self.geodes,
    {
        SimState {
            time_remaining: self.time_remaining - n,
            cash: self.cash.add(self.bots.mul(n)),
            bots: self.bots,
            geodes: self.geodes,
        }
    }

    /// Ceiling division.
    fn div_round_up(a: u32, b: u32) -> (r: u32)
        requires
            b >= 1,
        ensures
            r == (a + b - 1) as int / b as int,
    {
        let wide = ((a as u64) + (b as u64) - 1) / (b as u64);
        proof {
            let q = (a + b - 1) as int / b as int;
            vstd::arithmetic::div_mod::lemma_fundamental_div_mod(a as int + b - 1, b as int);
            assert(q <= u32::MAX) by (nonlinear_arith)
                requires
                    a as int + b - 1 == b * q + (a as int + b - 1) % (b as int),
                    0 <= (a as int + b - 1) % (b as int) < b,
                    1 <= b <= u32::MAX,
                    0 <= a <= u32::MAX,
            ;
        }
        wide as u32
    }

    /// In how many minutes from now the cost could be paid, assuming the
    /// current robots keep banking: 1 when it is payable already; nothing
    /// when a needed robot kind is missing or the wait would not leave a
    /// minute to build and profit.
    pub open spec fn spec_can_afford_when(self, cost: Resources) -> Option<u32> {
        if self.time_remaining <= 1 {
            None
        } else if self.cash.ore >= cost.ore && self.cash.clay >= cost.clay && self.cash.obsidian
            >= cost.obsidian {
            Some(1u32)
        } else {
            let ore_units = if cost.ore >= self.cash.ore {
                cost.ore - self.cash.ore
            } else {
                0
            };
            let clay_units = if cost.clay >= self.cash.clay {
                cost.clay - self.cash.clay
            } else {
                0
            };
            let obsidian_units = if cost.obsidian >= self.cash.obsidian {
                cost.obsidian - self.cash.obsidian
            } else {
                0
            };
            if clay_units > 0 && self.bots.clay == 0 {
                None
            } else if obsidian_units > 0 && self.bots.obsidian == 0 {
                None
            } else {
                let t0 = (ore_units + self.bots.ore - 1) as int / self.bots.ore as int;
                let t1 = if clay_units > 0 {
                    vstd::math::max(t0, (clay_units + self.bots.clay - 1) as int / self.bots.clay as int)
                } else {
                    t0
                };
                let t2 = if obsidian_units > 0 {
                    vstd::math::max(
                        t1,
                        (obsidian_units + self.bots.obsidian - 1) as int / self.bots.obsidian as int,
                    )
                } else {
                    t1
                };
                if t2 >= self.time_remaining - 1 {
                    None
                } else {
                    Some((t2 + 1) as u32)
                }
            }
        }
    }

    /// In how many minutes from now the cost could be paid.
    pub fn can_afford_when(&self, cost: &Resources) -> (r: Option<u32>)
        requires
            self.bots.ore >= 1,
        ensures
            r == self.spec_can_afford_when(*cost),
            r matches Some(w) ==> 1 <= w < self.time_remaining,
    {
        if self.time_remaining <= 1 {
            return None;
        }
        if self.cash.can_buy(cost) {
            return Some(1);
        }
        let ore_units = if cost.ore >= self.cash.ore {
            cost.ore - self.cash.ore
        } else {
            0
        };
        let clay_units = if cost.clay >= self.cash.clay {
            cost.clay - self.cash.clay
        } else {
            0
        };
        let obsidian_units = if cost.obsidian >= self.cash.obsidian {
            cost.obsidian - self.cash.obsidian
        } else {
            0
        };
        let mut max_time = Self::div_round_up(ore_units, self.bots.ore);
        if clay_units > 0 {
            if self.bots.clay == 0 {
                return None;
            } else {
                let t = Self::div_round_up(clay_units, self.bots.clay);
                if t > max_time {
                    max_time = t;
                }
            }
        }
        if obsidian_units > 0 {
            if self.bots.obsidian == 0 {
                return None;
            } else {
                let t = Self::div_round_up(obsidian_units, self.bots.obsidian);
                if t > max_time {
                    max_time = t;
                }
            }
        }
        if max_time >= self.time_remaining - 1 {
            None
        } else {
            Some(max_time + 1)
        }
    }

    /// Pays `cost` and adds one ore robot.
    pub fn buy_ore_bot(&self, cost: &Resources) -> (s: SimState)
        requires
            cost.ore <= self.cash.ore,
            cost.clay <= self.cash.clay,
            cost.obsidian <= self.cash.obsidian,
            self.bots.ore < u32::MAX,
        ensures
            s.time_remaining == self.time_remaining,
            s.cash.ore == self.cash.ore - cost.ore,
            s.cash.clay == self.cash.clay - cost.clay,
            s.cash.obsidian == self.cash.obsidian - cost.obsidian,
            s.bots.ore == self.bots.ore + 1,
            s.bots.clay == self.bots.clay,
            s.bots.obsidian == self.bots.obsidian,
            s.geodes == self.geodes,
    {
        SimState {
            time_remaining: self.time_remaining,
            cash: self.cash.sub(*cost),
            bots: self.bots.add_ore(1),
            geodes: self.geodes,
        }
    }

    /// Pays `cost` and adds one clay robot.
    pub fn buy_clay_bot(&self, cost: &Resources) -> (s: SimState)
        requires
            cost.ore <= self.cash.ore,
            cost.clay <= self.cash.clay,
            cost.obsidian <= self.cash.obsidian,
            self.bots.clay < u32::MAX,
        ensures
            s.time_remaining == self.time_remaining,
            s.cash.ore == self.cash.ore - cost.ore,
            s.cash.clay == self.cash.clay - cost.clay,
            s.cash.obsidian == self.cash.obsidian - cost.obsidian,
            s.bots.ore == self.bots.ore,
            s.bots.clay == self.bots.clay + 1,
            s.bots.obsidian == self.bots.obsidian,
            s.geodes == self.geodes,
    {
        SimState {
            time_remaining: self.time_remaining,
            cash: self.cash.sub(*cost),
            bots: self.bots.add_clay(1),
            geodes: self.geodes,
        }
    }

    /// Pays `cost` and adds one obsidian robot.
    pub fn buy_obsidian_bot(&self, cost: &Resources) -> (s: SimState)
        requires
            cost.ore <= self.cash.ore,
            cost.clay <= self.cash.clay,
            cost.obsidian <= self.cash.obsidian,
            self.bots.obsidian < u32::MAX,
        ensures
            s.time_remaining == self.time_remaining,
            s.cash.ore == self.cash.ore - cost.ore,
            s.cash.clay == self.cash.clay - cost.clay,
            s.cash.obsidian == self.cash.obsidian - cost.obsidian,
            s.bots.ore == self.bots.ore,
            s.bots.clay == self.bots.clay,
            s.bots.obsidian == self.bots.obsidian + 1,
            s.geodes == self.geodes,
    {
        SimState {
            time_remaining: self.time_remaining,
            cash: self.cash.sub(*cost),
            bots: self.bots.add_obsidian(1),
            geodes: self.geodes,
        }
    }

    /// Pays `cost` for a geode robot and banks all the geodes it will crack:
    /// one per remaining minute.
    pub fn buy_geodes(&self, cost: &Resources) -> (s: SimState)
        requires
            cost.ore <= self.cash.ore,
            cost.clay <= self.cash.clay,
            cost.obsidian <= self.cash.obsidian,
            self.geodes + self.time_remaining <= u32::MAX,
        ensures
            s.time_remaining == self.time_remaining,
            s.cash.ore == self.cash.ore - cost.ore,
            s.cash.clay == self.cash.clay - cost.clay,
            s.cash.obsidian == self.cash.obsidian - cost.obsidian,
            s.bots == self.bots,
            s.geodes == self.geodes + self.time_remaining,
    {
        SimState {
            time_remaining: self.time_remaining,
            cash: self.cash.sub(*cost),
            bots: self.bots,
            geodes: self.geodes + self.time_remaining,
        }
    }
}

/// At most `n * (n + 1) / 2` geodes can still be cracked in `n` minutes.
pub open spec fn spec_triangular(n: int) -> int {
    n * (n + 1) / 2
}

/// `n * (n + 1) / 2`, the most geodes crackable in `n` remaining minutes.
fn triangular(n: u32) -> (r: u64)
    ensures
        r == spec_triangular(n as int),
        r <= 0x8000000000000000u64,
{
    proof {
        assert(0 <= (n as int) * ((n as int) + 1) <= u64::MAX) by (nonlinear_arith)
            requires
                0 <= n <= u32::MAX,
        ;
    }
    let r = ((n as u64) * ((n as u64) + 1)) / 2;
    proof {
        assert((n as int) * ((n as int) + 1) / 2 <= 0x8000000000000000) by (nonlinear_arith)
            requires
                0 <= n <= u32::MAX,
        ;
    }
    r
}

/// Whether banked resources cover a cost.
pub open spec fn sim_buy(cost: Resources, ore: int, clay: int, obsidian: int) -> bool {
    cost.ore <= ore && cost.clay <= clay && cost.obsidian <= obsidian
}

/// Ceiling division against a positive rate: the quotient is the first
/// number of whole rounds that produces at least `u` units.
proof fn lemma_ceil_div(u: int, b: int)
    requires
        u >= 1,
        b >= 1,
    ensures
        b * ((u + b - 1) / b) >= u,
        forall|k: int| 0 <= k < (u + b - 1) / b ==> #[trigger] (b * k) < u,
{
    let q = (u + b - 1) / b;
    vstd::arithmetic::div_mod::lemma_fundamental_div_mod(u + b - 1, b);
    assert(b * q >= u) by (nonlinear_arith)
        requires
            u + b - 1 == b * q + (u + b - 1) % b,
            0 <= (u + b - 1) % b < b,
    ;
    assert forall|k: int| 0 <= k < q implies #[trigger] (b * k) < u by {
        assert(b * k <= b * (q - 1)) by (nonlinear_arith)
            requires
                k <= q - 1,
                b >= 1,
        ;
        assert(b * (q - 1) < u) by (nonlinear_arith)
            requires
                u + b - 1 == b * q + (u + b - 1) % b,
                0 <= (u + b - 1) % b < b,
        ;
    }
}

/// Whether the bank covers `cost` after `k` more minutes of mining.
pub open spec fn affordable_after(s: SimState, cost: Resources, k: int) -> bool {
    sim_buy(
        cost,
        s.cash.ore + s.bots.ore * k,
        s.cash.clay + s.bots.clay * k,
        s.cash.obsidian + s.bots.obsidian * k,
    )
}

/// What the wait computed by `can_afford_when` means: the cost is payable
/// after `w - 1` more minutes of mining and after no shorter wait, and no
/// wait is returned exactly when no wait that still leaves a minute to build
/// would do.
pub proof fn lemma_can_afford_when_least(s: SimState, cost: Resources)
    requires
        s.bots.ore >= 1,
    ensures
        match s.spec_can_afford_when(cost) {
            Some(w) => {
                &&& 1 <= w < s.time_remaining
                &&& affordable_after(s, cost, w - 1)
                &&& forall|w2: int| 1 <= w2 < w ==> !#[trigger] affordable_after(s, cost, w2 - 1)
            },
            None => forall|w2: int|
                1 <= w2 < s.time_remaining ==> !#[trigger] affordable_after(s, cost, w2 - 1),
        },
{
    if s.time_remaining <= 1 {
    } else if s.cash.ore >= cost.ore && s.cash.clay >= cost.clay && s.cash.obsidian
        >= cost.obsidian {
        assert(s.bots.ore * 0 == 0) by (nonlinear_arith);
        assert(s.bots.clay * 0 == 0) by (nonlinear_arith);
        assert(s.bots.obsidian * 0 == 0) by (nonlinear_arith);
        assert(affordable_after(s, cost, 0));
    } else {
        let ore_units = if cost.ore >= s.cash.ore {
            cost.ore - s.cash.ore
        } else {
            0
        };
        let clay_units = if cost.clay >= s.cash.clay {
            cost.clay - s.cash.clay
        } else {
            0
        };
        let obsidian_units = if cost.obsidian >= s.cash.obsidian {
            cost.obsidian - s.cash.obsidian
        } else {
            0
        };
        if clay_units > 0 && s.bots.clay == 0 {
            assert forall|w2: int|
                1 <= w2 < s.time_remaining implies !#[trigger] affordable_after(
                s,
                cost,
                w2 - 1,
            ) by {
                assert(s.bots.clay * (w2 - 1) == 0) by (nonlinear_arith)
                    requires
                        s.bots.clay == 0,
                ;
            }
        } else if obsidian_units > 0 && s.bots.obsidian == 0 {
            assert forall|w2: int|
                1 <= w2 < s.time_remaining implies !#[trigger] affordable_after(
                s,
                cost,
                w2 - 1,
            ) by {
                assert(s.bots.obsidian * (w2 - 1) == 0) by (nonlinear_arith)
                    requires
                        s.bots.obsidian == 0,
                ;
            }
        } else {
            let t0 = (ore_units + s.bots.ore - 1) as int / s.bots.ore as int;
            let t1 = if clay_units > 0 {
                vstd::math::max(t0, (clay_units + s.bots.clay - 1) as int / s.bots.clay as int)
            } else {
                t0
            };
            let t2 = if obsidian_units > 0 {
                vstd::math::max(
                    t1,
                    (obsidian_units + s.bots.obsidian - 1) as int / s.bots.obsidian as int,
                )
            } else {
                t1
            };
            // The wait t2 suffices: each resource has mined its missing units.
            if ore_units > 0 {
                lemma_ceil_div(ore_units as int, s.bots.ore as int);
                assert(s.bots.ore * t2 >= s.bots.ore * t0) by (nonlinear_arith)
                    requires
                        t2 >= t0,
                        s.bots.ore >= 0,
                ;
            } else {
                lemma_ceil_div(1, s.bots.ore as int);
                assert(s.bots.ore * t2 >= 0) by (nonlinear_arith)
                    requires
                        t2 >= 0,
                        s.bots.ore >= 0,
                ;
            }
            if clay_units > 0 {
                lemma_ceil_div(clay_units as int, s.bots.clay as int);
                assert(s.bots.clay * t2 >= s.bots.clay * ((clay_units + s.bots.clay - 1) as int
                    / s.bots.clay as int)) by (nonlinear_arith)
                    requires
                        t2 >= (clay_units + s.bots.clay - 1) as int / s.bots.clay as int,
                        s.bots.clay >= 0,
                ;
            } else {
                assert(s.bots.clay * t2 >= 0) by (nonlinear_arith)
                    requires
                        t2 >= 0,
                        s.bots.clay >= 0,
                ;
            }
            if obsidian_units > 0 {
                lemma_ceil_div(obsidian_units as int, s.bots.obsidian as int);
                assert(s.bots.obsidian * t2 >= s.bots.obsidian * ((obsidian_units
                    + s.bots.obsidian - 1) as int / s.bots.obsidian as int)) by (nonlinear_arith)
                    requires
                        t2 >= (obsidian_units + s.bots.obsidian - 1) as int
                            / s.bots.obsidian as int,
                        s.bots.obsidian >= 0,
                ;
            } else {
                assert(s.bots.obsidian * t2 >= 0) by (nonlinear_arith)
                    requires
                        t2 >= 0,
                        s.bots.obsidian >= 0,
                ;
            }
            assert(t2 >= 0);
            assert(affordable_after(s, cost, t2));
            // No shorter wait does: the resource whose rounds set the
            // maximum is still short of its missing units.
            assert forall|k: int| 0 <= k < t2 implies !#[trigger] affordable_after(s, cost, k) by {
                if obsidian_units > 0 && t2 == (obsidian_units + s.bots.obsidian - 1) as int
                    / s.bots.obsidian as int {
                    lemma_ceil_div(obsidian_units as int, s.bots.obsidian as int);
                    assert(s.bots.obsidian * k < obsidian_units);
                } else if clay_units > 0 && t1 == (clay_units + s.bots.clay - 1) as int
                    / s.bots.clay as int {
                    lemma_ceil_div(clay_units as int, s.bots.clay as int);
                    assert(s.bots.clay * k < clay_units);
                } else {
                    assert(t2 == t0);
                    if ore_units == 0 {
                        vstd::arithmetic::div_mod::lemma_fundamental_div_mod_converse_div(
                            (s.bots.ore - 1) as int,
                            s.bots.ore as int,
                            0,
                            (s.bots.ore - 1) as int,
                        );
                        assert(t0 == 0);
                        assert(clay_units > 0 || obsidian_units > 0);
                        if clay_units > 0 {
                            let q = (clay_units + s.bots.clay - 1) as int / s.bots.clay as int;
                            lemma_ceil_div(clay_units as int, s.bots.clay as int);
                            assert(q >= 1) by {
                                if q <= 0 {
                                    assert(s.bots.clay * q <= 0) by (nonlinear_arith)
                                        requires
                                            q <= 0,
                                            s.bots.clay >= 1,
                                    ;
                                }
                            }
                            assert(t1 >= q);
                        } else {
                            let q = (obsidian_units + s.bots.obsidian - 1) as int
                                / s.bots.obsidian as int;
                            lemma_ceil_div(obsidian_units as int, s.bots.obsidian as int);
                            assert(q >= 1) by {
                                if q <= 0 {
                                    assert(s.bots.obsidian * q <= 0) by (nonlinear_arith)
                                        requires
                                            q <= 0,
                                            s.bots.obsidian >= 1,
                                    ;
                                }
                            }
                            assert(t2 >= q);
                        }
                        assert(false);
                    }
                    lemma_ceil_div(ore_units as int, s.bots.ore as int);
                    assert(s.bots.ore * k < ore_units);
                }
            }
        }
    }
}

/// One scheduling decision taken `w` minutes after `a`: every robot banks one
/// unit per minute while waiting, then one purchase is paid for, leaving `b`.
pub open spec fn sim_move_waiting(bp: Blueprint, a: SimState, b: SimState, w: u32) -> bool {
    let t = a.time_remaining - w;
    let ore = a.cash.ore + a.bots.ore * w;
    let clay = a.cash.clay + a.bots.clay * w;
    let obsidian = a.cash.obsidian + a.bots.obsidian * w;
    &&& 1 <= w <= a.time_remaining
    &&& ore <= u32::MAX
    &&& clay <= u32::MAX
    &&& obsidian <= u32::MAX
    &&& {
        ||| (sim_buy(bp.geodes_cost, ore, clay, obsidian) && a.geodes + t <= u32::MAX && b == (
        SimState {
            time_remaining: t as u32,
            cash: (Resources {
                ore: (ore - bp.geodes_cost.ore) as u32,
                clay: (clay - bp.geodes_cost.clay) as u32,
                obsidian: (obsidian - bp.geodes_cost.obsidian) as u32,
            }),
            bots: a.bots,
            geodes: (a.geodes + t) as u32,
        }))
        ||| (sim_buy(bp.obsidian_cost, ore, clay, obsidian) && a.bots.obsidian < u32::MAX && b
            == (SimState {
            time_remaining: t as u32,
            cash: (Resources {
                ore: (ore - bp.obsidian_cost.ore) as u32,
                clay: (clay - bp.obsidian_cost.clay) as u32,
                obsidian: (obsidian - bp.obsidian_cost.obsidian) as u32,
            }),
            bots: (Resources {
                ore: a.bots.ore,
                clay: a.bots.clay,
                obsidian: (a.bots.obsidian + 1) as u32,
            }),
            geodes: a.geodes,
        }))
        ||| (sim_buy(bp.clay_cost, ore, clay, obsidian) && a.bots.clay < u32::MAX && b == (
        SimState {
            time_remaining: t as u32,
            cash: (Resources {
                ore: (ore - bp.clay_cost.ore) as u32,
                clay: (clay - bp.clay_cost.clay) as u32,
                obsidian: (obsidian - bp.clay_cost.obsidian) as u32,
            }),
            bots: (Resources {
                ore: a.bots.ore,
                clay: (a.bots.clay + 1) as u32,
                obsidian: a.bots.obsidian,
            }),
            geodes: a.geodes,
        }))
        ||| (sim_buy(bp.ore_cost, ore, clay, obsidian) && a.bots.ore < u32::MAX && b == (SimState {
            time_remaining: t as u32,
            cash: (Resources {
                ore: (ore - bp.ore_cost.ore) as u32,
                clay: (clay - bp.ore_cost.clay) as u32,
                obsidian: (obsidian - bp.ore_cost.obsidian) as u32,
            }),
            bots: (Resources {
                ore: (a.bots.ore + 1) as u32,
                clay: a.bots.clay,
                obsidian: a.bots.obsidian,
            }),
            geodes: a.geodes,
        }))
    }
}

/// One scheduling decision, after some wait.
pub open spec fn sim_move(bp: Blueprint, a: SimState, b: SimState) -> bool {
    exists|w: u32| #[trigger] sim_move_waiting(bp, a, b, w)
}

/// A purchase schedule: consecutive states joined by scheduling decisions.
pub open spec fn sim_chain(bp: Blueprint, states: Seq<SimState>) -> bool {
    &&& states.len() >= 1
    &&& forall|i: int|
        0 <= i < states.len() - 1 ==> #[trigger] sim_move(bp, states[i], states[i + 1])
}

/// Whether some purchase schedule leads from `a` to `b`.
pub open spec fn sim_reachable(bp: Blueprint, a: SimState, b: SimState) -> bool {
    exists|states: Seq<SimState>|
        {
            &&& sim_chain(bp, states)
            &&& states[0] == a
            &&& states.last() == b
        }
}

/// The empty schedule stays put.
pub proof fn lemma_sim_reachable_self(bp: Blueprint, a: SimState)
    ensures
        sim_reachable(bp, a, a),
{
    let states = seq![a];
    assert(sim_chain(bp, states) && states[0] == a && states.last() == a);
}

/// A decision followed by a schedule is a schedule.
pub proof fn lemma_sim_reachable_prepend(bp: Blueprint, a: SimState, b: SimState, c: SimState)
    requires
        sim_move(bp, a, b),
        sim_reachable(bp, b, c),
    ensures
        sim_reachable(bp, a, c),
{
    let chain = choose|chain: Seq<SimState>|
        {
            &&& sim_chain(bp, chain)
            &&& chain[0] == b
            &&& chain.last() == c
        };
    let full = seq![a] + chain;
    assert(full[0] == a);
    assert(full.last() == chain[chain.len() - 1]);
    assert forall|i: int|
        0 <= i < full.len() - 1 implies #[trigger] sim_move(bp, full[i], full[i + 1]) by {
        if i == 0 {
            assert(full[0] == a && full[1] == chain[0]);
        } else {
            assert(full[i] == chain[i - 1] && full[i + 1] == chain[i]);
            assert(sim_move(bp, chain[i - 1], chain[i - 1 + 1]));
        }
    }
    assert(sim_chain(bp, full) && full[0] == a && full.last() == c);
}

/// The depth-first search for the best geode count a blueprint allows.
pub struct Simulation {
    pub best_result: u32,
    pub blueprint: Blueprint,
}

impl Simulation {
    /// Explores every useful purchase from `state`, keeping the best geode
    /// count seen: the best only grows, never below `state.geodes`, and any
    /// new best is the geode count of a state some purchase schedule from
    /// `state` actually reaches.
    ///
    /// Branches are pruned when even cracking a geode every remaining minute
    /// could not beat the best; a branch whose arithmetic would exceed the
    /// resource word is abandoned the same way.
    pub fn simulate_step(&mut self, state: SimState)
        requires
            state.time_remaining >= 1,
            state.bots.ore >= 1,
        ensures
            final(self).blueprint == old(self).blueprint,
            final(self).best_result >= old(self).best_result,
            final(self).best_result >= state.geodes,
            final(self).best_result == old(self).best_result || (exists|s: SimState|
                #[trigger] sim_reachable(old(self).blueprint, state, s) && s.geodes
                    == final(self).best_result),
        decreases state.time_remaining,
    {
        let ghost bp = self.blueprint;
        let upper = state.geodes as u64 + triangular(state.time_remaining);
        if upper <= self.best_result as u64 {
            return ;
        }
        let geodes_cost = self.blueprint.geodes_cost;
        if let Some(when) = state.can_afford_when(&geodes_cost) {
            if let Some(next) = Self::advance(state, when) {
                if next.cash.can_buy(&geodes_cost) && next.geodes <= u32::MAX - next.time_remaining
                {
                    let bought = next.buy_geodes(&geodes_cost);
                    let ghost prev = self.best_result;
                    proof {
                        assert(sim_move_waiting(bp, state, bought, when));
                        assert(sim_move(bp, state, bought));
                    }
                    self.simulate_step(bought);
                    proof {
                        if self.best_result != prev {
                            let s = choose|s: SimState|
                                #[trigger] sim_reachable(bp, bought, s) && s.geodes
                                    == self.best_result;
                            lemma_sim_reachable_prepend(bp, state, bought, s);
                        }
                    }
                }
            }
        }
        let obsidian_cost = self.blueprint.obsidian_cost;
        if let Some(when) = state.can_afford_when(&obsidian_cost) {
            if let Some(next) = Self::advance(state, when) {
                if next.cash.can_buy(&obsidian_cost) && next.bots.obsidian < u32::MAX {
                    let bought = next.buy_obsidian_bot(&obsidian_cost);
                    let ghost prev = self.best_result;
                    proof {
                        assert(sim_move_waiting(bp, state, bought, when));
                        assert(sim_move(bp, state, bought));
                    }
                    self.simulate_step(bought);
                    proof {
                        if self.best_result != prev {
                            let s = choose|s: SimState|
                                #[trigger] sim_reachable(bp, bought, s) && s.geodes
                                    == self.best_result;
                            lemma_sim_reachable_prepend(bp, state, bought, s);
                        }
                    }
                }
            }
        }
        let clay_cost = self.blueprint.clay_cost;
        if let Some(when) = state.can_afford_when(&clay_cost) {
            if let Some(next) = Self::advance(state, when) {
                if next.cash.can_buy(&clay_cost) && next.bots.clay < u32::MAX {
                    let bought = next.buy_clay_bot(&clay_cost);
                    let ghost prev = self.best_result;
                    proof {
                        assert(sim_move_waiting(bp, state, bought, when));
                        assert(sim_move(bp, state, bought));
                    }
                    self.simulate_step(bought);
                    proof {
                        if self.best_result != prev {
                            let s = choose|s: SimState|
                                #[trigger] sim_reachable(bp, bought, s) && s.geodes
                                    == self.best_result;
                            lemma_sim_reachable_prepend(bp, state, bought, s);
                        }
                    }
                }
            }
        }
        if state.bots.ore < self.blueprint.max_ore_required {
            let ore_cost = self.blueprint.ore_cost;
            if let Some(when) = state.can_afford_when(&ore_cost) {
                if let Some(next) = Self::advance(state, when) {
                    if next.cash.can_buy(&ore_cost) && next.bots.ore < u32::MAX {
                        let bought = next.buy_ore_bot(&ore_cost);
                        let ghost prev = self.best_result;
                        proof {
                            assert(sim_move_waiting(bp, state, bought, when));
                            assert(sim_move(bp, state, bought));
                        }
                        self.simulate_step(bought);
                        proof {
                            if self.best_result != prev {
                                let s = choose|s: SimState|
                                    #[trigger] sim_reachable(bp, bought, s) && s.geodes
                                        == self.best_result;
                                lemma_sim_reachable_prepend(bp, state, bought, s);
                            }
                        }
                    }
                }
            }
        }
        if state.geodes > self.best_result {
            self.best_result = state.geodes;
            proof {
                lemma_sim_reachable_self(bp, state);
            }
        }
    }

    /// `state.steps(n)` behind a runtime bank-overflow check.
    fn advance(state: SimState, n: u32) -> (r: Option<SimState>)
        requires
            1 <= n <= state.time_remaining,
        ensures
            r matches Some(s) ==> {
                &&& s.time_remaining == state.time_remaining - n
                &&& s.bots == state.bots
                &&& s.geodes == state.geodes
                &&& s.cash.ore == state.cash.ore + state.bots.ore * n
                &&& s.cash.clay == state.cash.clay + state.bots.clay * n
                &&& s.cash.obsidian == state.cash.obsidian + state.bots.obsidian * n
            },
    {
        let max = u32::MAX as u64;
        proof {
            assert forall|a: u32, b: u32| 0 <= #[trigger] ((a as int) * (b as int))
                < 0x10000000000000000 - 0x100000000 by {
                assert(0 <= (a as int) * (b as int) < 0x10000000000000000 - 0x100000000)
                    by (nonlinear_arith)
                    requires
                        0 <= a <= u32::MAX,
                        0 <= b <= u32::MAX,
                ;
            }
        }
        if state.cash.ore as u64 + state.bots.ore as u64 * n as u64 <= max && state.cash.clay
            as u64 + state.bots.clay as u64 * n as u64 <= max && state.cash.obsidian as u64
            + state.bots.obsidian as u64 * n as u64 <= max {
            Some(state.steps(n))
        } else {
            None
        }
    }

    /// Best geode count found for `blueprint` within `time_limit` minutes:
    /// always the geode count of a state some purchase schedule from the
    /// starting state actually reaches.
    pub fn simulate(blueprint: Blueprint, time_limit: u32) -> (r: u32)
        requires
            time_limit >= 1,
        ensures
            exists|s: SimState|
                #[trigger] sim_reachable(
                    blueprint,
                    (SimState {
                        time_remaining: time_limit,
                        cash: (Resources { ore: 0, clay: 0, obsidian: 0 }),
                        bots: (Resources { ore: 1, clay: 0, obsidian: 0 }),
                        geodes: 0,
                    }),
                    s,
                ) && s.geodes == r,
    {
        let mut sim = Simulation { best_result: 0, blueprint };
        let start = SimState::new(time_limit);
        sim.simulate_step(start);
        proof {
            if sim.best_result == 0 {
                lemma_sim_reachable_self(blueprint, start);
            }
        }
        sim.best_result
    }
}

} // verus!
