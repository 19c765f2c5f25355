//! A small seeded generator: reproducible streams of fractions and directions.
use vstd::prelude::*;
use crate::material::{lemma_unit_length, unit_spec, unit_vector};
use crate::ray::triple_vec;
use crate::sphere::{as_triple, dot3};
use crate::vec3::{dot_spec, Vec3, ONE};

verus! {

/// Multiplier of the linear congruential step.
pub const LCG_MUL: u64 = 6364136223846793005;

/// Increment of the linear congruential step.
pub const LCG_INC: u64 = 1442695040888963407;

/// How many candidates the unit-ball sampler draws before giving up.
pub const MAX_TRIES: u32 = 64;

/// Candidates shorter than 0.1 (squared length below this) are rejected too:
/// rounding would spoil their normalization.
pub const MIN_LEN2: i128 = 1000000;

/// The next state: `(s * LCG_MUL + LCG_INC) mod 2^64`.
pub open spec fn lcg_next(s: u64) -> u64 {
    ((s as int * LCG_MUL as int + LCG_INC as int) % 0x10000000000000000) as u64
}

/// A fraction in `[0, ONE)` taken from the high bits of a state.
pub open spec fn fraction_of(s: u64) -> int {
    (s as int / 0x200000000) % (ONE as int)
}

/// The candidate drawn from the three states following `s`: each component
/// `2 f - ONE` for a fraction `f`, so within the cube `[-ONE, ONE)`.
pub open spec fn candidate(s: u64) -> Vec3 {
    let s1 = lcg_next(s);
    let s2 = lcg_next(s1);
    let s3 = lcg_next(s2);
    Vec3 {
        x: (2 * fraction_of(s1) - ONE) as i64,
        y: (2 * fraction_of(s2) - ONE) as i64,
        z: (2 * fraction_of(s3) - ONE) as i64,
    }
}

/// The state three steps after `s`.
pub open spec fn lcg_next3(s: u64) -> u64 {
    lcg_next(lcg_next(lcg_next(s)))
}

/// The unit vector and the final state that rejection sampling from state
/// `s` yields, after `tries` candidates were already rejected.
pub open spec fn unit_draw(s: u64, tries: nat) -> (Vec3, u64)
    decreases MAX_TRIES - tries,
{
    if tries >= MAX_TRIES {
        (Vec3 { x: ONE, y: 0, z: 0 }, s)
    } else {
        let v = candidate(s);
        let d = dot3(as_triple(v), as_triple(v));
        if MIN_LEN2 <= d <= ONE * ONE {
            (triple_vec(unit_spec(v)), lcg_next3(s))
        } else {
            unit_draw(lcg_next3(s), tries + 1)
        }
    }
}

/// A random source; each rendering worker owns one.
pub struct Rng {
    pub state: u64,
}

impl Rng {
    pub fn new(seed: u64) -> (r: Rng)
        ensures
            r.state == seed,
    {
        Rng { state: seed }
    }

    /// Advances the state and returns it.
    pub fn next_u64(&mut self) -> (r: u64)
        ensures
            final(self).state == lcg_next(old(self).state),
            r == final(self).state,
    {
        assert((self.state as int) * (LCG_MUL as int) <= 0xffffffffffffffff * 0xffffffffffffffff)
            by (nonlinear_arith)
            requires
                0 <= self.state <= 0xffffffffffffffff,
                LCG_MUL == 6364136223846793005,
        ;
        let wide = (self.state as u128) * (LCG_MUL as u128) + (LCG_INC as u128);
        self.state = (wide % 0x10000000000000000) as u64;
        self.state
    }

    /// A uniform fraction in `[0, ONE)`.
    pub fn next_fraction(&mut self) -> (r: i64)
        ensures
            final(self).state == lcg_next(old(self).state),
            r == fraction_of(final(self).state),
            0 <= r < ONE,
    {
        let s = self.next_u64();
        ((s / 0x200000000) % 10000) as i64
    }

    /// A random direction of length one (up to rounding), drawn uniformly from
    /// the unit ball by rejection and then normalized. After `MAX_TRIES`
    /// rejected candidates it returns the unit `x` axis.
    pub fn random_unit_vector(&mut self) -> (r: Vec3)
        ensures
            r.within(ONE as int),
            97 * ONE * ONE <= 100 * dot_spec(r, r) <= 101 * ONE * ONE,
            (r, final(self).state) == unit_draw(old(self).state, 0),
    {
        let mut tries: u32 = 0;
        while tries < MAX_TRIES
            invariant
                tries <= MAX_TRIES,
                unit_draw(self.state, tries as nat) == unit_draw(old(self).state, 0),
            decreases MAX_TRIES - tries,
        {
            let ghost s0 = self.state;
            let x = 2 * self.next_fraction() - ONE;
            let y = 2 * self.next_fraction() - ONE;
            let z = 2 * self.next_fraction() - ONE;
            let v = Vec3::new(x, y, z);
            assert(v == candidate(s0));
            assert(self.state == lcg_next3(s0));
            let len2 = v.squared_length();
            if MIN_LEN2 <= len2 && len2 <= (ONE as i128) * (ONE as i128) {
                match unit_vector(v) {
                    Some(u) => {
                        proof {
                            lemma_unit_length(v);
                        }
                        return u;
                    },
                    None => {},
                }
            }
            tries = tries + 1;
        }
        Vec3::new(ONE, 0, 0)
    }
}

} // verus!
