//! A deterministic linear-congruential pseudorandom generator.
//!
//! Reproducibility, not statistical quality, is the point: every draw is an
//! exact function of the generator's state, so a seed pins the whole output
//! sequence.

use vstd::prelude::*;

verus! {

/// Multiplier of the linear-congruential step.
pub const LCG_MULTIPLIER: i64 = 1664525;

/// Increment of the linear-congruential step.
pub const LCG_INCREMENT: i64 = 1013904223;

/// Modulus of the linear-congruential step: 2^32.
pub const LCG_MODULUS: i64 = 4294967296;

/// Largest generator state for which the step's multiply-accumulate
/// `LCG_MULTIPLIER * state + LCG_INCREMENT` still fits in an `i64`.
pub const SEED_MAX: i64 = 5541143591018;

/// One step of the linear-congruential recurrence.
pub open spec fn lcg_next(s: int) -> int {
    (LCG_MULTIPLIER as int * s + LCG_INCREMENT as int) % (LCG_MODULUS as int)
}

/// The state after `k` linear-congruential steps from `s`.
pub open spec fn lcg_iter(s: int, k: nat) -> int
    decreases k,
{
    if k == 0 {
        s
    } else {
        lcg_next(lcg_iter(s, (k - 1) as nat))
    }
}

/// Two raised to the power `e` (and one for a non-positive `e`).
pub open spec fn pow2(e: int) -> int
    decreases e,
{
    if e <= 0 {
        1
    } else {
        2 * pow2(e - 1)
    }
}

/// The denominator that a unit-interval draw from state `s` uses: two
/// raised to an exponent drawn from the generator, at most 2^15.
pub open spec fn sample_den(s: int) -> int {
    pow2(lcg_next(s) % 16)
}

/// The numerator that a unit-interval draw from state `s` uses.
pub open spec fn sample_num(s: int) -> int {
    lcg_next(lcg_next(s)) % sample_den(s)
}

/// The generator state after one unit-interval draw: two steps of the
/// recurrence, one for the exponent and one for the numerator.
pub open spec fn state_after_sample(s: int) -> int {
    lcg_next(lcg_next(s))
}

/// The unit-interval draw from state `s`, scaled by 2^15 into an integer in
/// `[0, 32768)`: the scaling is exact because the denominator divides 2^15.
pub open spec fn sample_scaled(s: int) -> int {
    sample_num(s) * (32768int / sample_den(s))
}

/// `pow2` grows monotonically.
proof fn lemma_pow2_monotone(e1: int, e2: int)
    requires
        e1 <= e2,
    ensures
        pow2(e1) <= pow2(e2),
    decreases e2 - e1,
{
    if e1 < e2 {
        lemma_pow2_monotone(e1, e2 - 1);
        lemma_pow2_pos(e2 - 1);
    }
}

/// `pow2` is positive.
proof fn lemma_pow2_pos(e: int)
    ensures
        pow2(e) >= 1,
    decreases (if e <= 0 { 0int } else { e }),
{
    if e > 0 {
        lemma_pow2_pos(e - 1);
    }
}

/// An exponent of at most fifteen yields a denominator that divides 2^15,
/// and the quotient is the power of the remaining exponent.
proof fn lemma_pow2_split(e: int)
    requires
        0 <= e <= 15,
    ensures
        32768int % pow2(e) == 0,
        32768int / pow2(e) == pow2(15 - e),
{
    lemma_pow2_pos(e);
    lemma_pow2_pos(15 - e);
    lemma_pow2_mul(e, 15 - e);
    assert(pow2(15) == 32768) by {
        reveal_with_fuel(pow2, 16);
    }
    vstd::arithmetic::div_mod::lemma_div_multiples_vanish(pow2(15 - e), pow2(e));
    vstd::arithmetic::div_mod::lemma_mod_multiples_basic(pow2(15 - e), pow2(e));
    vstd::arithmetic::mul::lemma_mul_is_commutative(pow2(e), pow2(15 - e));
}

/// Powers of two multiply by adding exponents.
proof fn lemma_pow2_mul(e1: int, e2: int)
    requires
        0 <= e1,
        0 <= e2,
    ensures
        pow2(e1) * pow2(e2) == pow2(e1 + e2),
    decreases e2,
{
    if e2 == 0 {
        assert(pow2(e1) * 1 == pow2(e1)) by (nonlinear_arith);
    } else {
        lemma_pow2_mul(e1, e2 - 1);
        assert(pow2(e1) * (2 * pow2(e2 - 1)) == 2 * (pow2(e1) * pow2(e2 - 1)))
            by (nonlinear_arith);
    }
}

/// Law: the trajectory is a function of the state alone.  Running
/// `k1 + k2` steps from a state is the same as running `k1` steps and then
/// `k2` more from where they ended, so however the draws of a run are
/// batched, one seed yields one fixed sequence.
pub proof fn lemma_lcg_iter_compose(s: int, k1: nat, k2: nat)
    ensures
        lcg_iter(s, k1 + k2) == lcg_iter(lcg_iter(s, k1), k2),
    decreases k2,
{
    if k2 > 0 {
        lemma_lcg_iter_compose(s, k1, (k2 - 1) as nat);
    }
}

/// Deterministic linear-congruential generator.
pub struct RNG {
    /// Last value drawn (the generator state).
    last: i64,
    /// Multiplier.
    a: i64,
    /// Increment.
    c: i64,
    /// Modulus.
    m: i64,
}

impl RNG {
    /// The generator carries the fixed recurrence parameters and a state
    /// inside the range on which the step cannot overflow.
    pub closed spec fn wf(&self) -> bool {
        &&& self.a == LCG_MULTIPLIER
        &&& self.c == LCG_INCREMENT
        &&& self.m == LCG_MODULUS
        &&& 0 <= self.last <= SEED_MAX
    }

    /// The current generator state.
    pub closed spec fn state(&self) -> int {
        self.last as int
    }

    pub fn new(seed: i64) -> (r: RNG)
        requires
            0 <= seed <= SEED_MAX,
        ensures
            r.wf(),
            r.state() == seed,
    {
        RNG { last: seed, a: LCG_MULTIPLIER, c: LCG_INCREMENT, m: LCG_MODULUS }
    }

    pub fn new_time_seed() -> (r: RNG)
        ensures
            r.wf(),
    {
        let secs = unix_seconds();
        let seed = (secs % 4294967296) as i64;
        RNG::new(seed)
    }

    /// Draw the next value: step the recurrence once and return the new
    /// state, which always lands in `[0, LCG_MODULUS)`.
    pub fn rand_i64(&mut self) -> (r: i64)
        requires
            old(self).wf(),
        ensures
            final(self).wf(),
            r == lcg_next(old(self).state()),
            final(self).state() == r,
            0 <= r < LCG_MODULUS,
    {
        proof {
            vstd::arithmetic::mul::lemma_mul_inequality(
                self.last as int,
                SEED_MAX as int,
                LCG_MULTIPLIER as int,
            );
            vstd::arithmetic::mul::lemma_mul_nonnegative(
                LCG_MULTIPLIER as int,
                self.last as int,
            );
        }
        self.last = (self.a * self.last + self.c) % self.m;
        self.last
    }

    /// Draw a unit-interval sample as an exact fraction.
    ///
    /// The generator first draws an exponent in `[0, 16)` that fixes the
    /// denominator as a power of two, then draws the numerator below that
    /// denominator.  The pair `(numerator, denominator)` determines the
    /// sample `numerator / denominator` in `[0, 1)` exactly, so callers that
    /// form the quotient in any binary floating-point format of at least
    /// sixteen bits of mantissa reproduce the draw bit for bit.
    pub fn rand_fraction(&mut self) -> (r: (i64, i64))
        requires
            old(self).wf(),
        ensures
            final(self).wf(),
            final(self).state() == state_after_sample(old(self).state()),
            r.1 == sample_den(old(self).state()),
            r.0 == sample_num(old(self).state()),
            0 <= r.0 < r.1 <= 32768,
            32768int % (r.1 as int) == 0,
    {
        let ghost s0 = self.state();
        let exp = self.rand_i64() % 16;
        let mut den: i64 = 1;
        let mut e: i64 = 0;
        while e < exp
            invariant
                0 <= e <= exp < 16,
                1 <= den <= 32768,
                den == pow2(e as int),
            decreases exp - e,
        {
            proof {
                lemma_pow2_monotone(e as int + 1, 15);
                assert(pow2(15) == 32768) by {
                    reveal_with_fuel(pow2, 16);
                }
                assert(pow2(e as int + 1) == 2 * pow2(e as int));
                assert(2 * den <= 32768);
            }
            den = den * 2;
            e = e + 1;
        }
        proof {
            lemma_pow2_pos(exp as int);
            lemma_pow2_split(exp as int);
        }
        let num = self.rand_i64() % den;
        proof {
            assert(den == sample_den(s0));
            assert(num == sample_num(s0));
        }
        (num, den)
    }
}

/// Relies on `std::time::SystemTime::now` and `duration_since`: the seconds
/// elapsed since the Unix epoch, or zero when the clock reads earlier than
/// the epoch.  Nothing is promised of the result: it depends on the clock.
#[verifier::external_body]
fn unix_seconds() -> u64 {
    match std::time::SystemTime::now().duration_since(std::time::SystemTime::UNIX_EPOCH) {
        Ok(d) => d.as_secs(),
        Err(_) => 0,
    }
}

} // verus!
