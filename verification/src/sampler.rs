//! The source of chance: uniform and normal draws from a seeded generator,
//! and a bound on the number of perturbations that a search may still make.

use vstd::prelude::*;
use vstd::arithmetic::power2::{pow2, lemma_pow2_pos, lemma_pow2_strictly_increases, lemma2_to64};
use rand::Rng;
use rand::Rand;
use crate::numeric::spec_clamp;

verus! {

/// The generator `StdRng` of the `rand` crate, of which nothing is known
/// but that draws can be made from it.
#[verifier::external_type_specification]
#[verifier::external_body]
pub struct ExStdRng(rand::StdRng);

/// One draw of `Rng::gen_range` of the `rand` crate on `lo` and `hi`. The
/// crate returns `lo` plus a remainder modulo `hi - lo`: a number of
/// `lo..hi`, whichever it is. It panics where `lo >= hi`.
#[verifier::external_body]
fn gen_range(rng: &mut rand::StdRng, lo: i32, hi: i32) -> (r: i32)
    requires
        lo < hi,
    ensures
        lo <= r < hi,
{
    rng.gen_range(lo, hi)
}

/// One draw of `StandardNormal::rand` of the `rand` crate, as the bits of
/// the 64-bit floating-point number that it returns. Nothing is claimed of
/// the number.
#[verifier::external_body]
fn rng_normal(rng: &mut rand::StdRng) -> (bits: u64) {
    rand::distributions::normal::StandardNormal::rand(rng).0.to_bits()
}

/// Two to the power 52: the weight of the hidden bit of a 64-bit
/// floating-point number.
pub const HIDDEN: u64 = 0x10_0000_0000_0000;

/// The exponent field of the floating-point number with the bits `bits`.
pub open spec fn exponent_of(bits: u64) -> int {
    (bits / HIDDEN) as int % 2048
}

/// The fraction field of the floating-point number with the bits `bits`.
pub open spec fn fraction_of(bits: u64) -> int {
    bits as int % (HIDDEN as int)
}

/// The whole part of `k` times the magnitude of the 64-bit floating-point
/// number with the bits `bits`: with the fields `e` and `f` of the number
/// and `m` its significand (`f`, and the hidden bit where `e` is not
/// zero), `m * k` times two to the power `max(e, 1) - 1075`, rounded down.
pub open spec fn scaled_magnitude(bits: u64, k: int) -> int {
    let e = exponent_of(bits);
    let f = fraction_of(bits);
    let m = if e == 0 { f } else { f + HIDDEN };
    if e >= 1075 {
        m * k * pow2((e - 1075) as nat)
    } else if e == 0 {
        (m * k) / (pow2(1074) as int)
    } else {
        (m * k) / (pow2((1075 - e) as nat) as int)
    }
}

/// `k` times the 64-bit floating-point number with the bits `bits`,
/// rounded towards zero and limited to the range of `i32`; zero where the
/// bits are those of no number.
pub open spec fn spec_scale_normal(bits: u64, k: u8) -> int {
    if exponent_of(bits) == 2047 && fraction_of(bits) != 0 {
        0
    } else if bits >= 0x8000_0000_0000_0000 {
        spec_clamp(-scaled_magnitude(bits, k as int), i32::MIN as int, i32::MAX as int)
    } else {
        spec_clamp(scaled_magnitude(bits, k as int), i32::MIN as int, i32::MAX as int)
    }
}

/// `k` times the floating-point number with the bits `bits`, rounded
/// towards zero and limited to the range of `i32`.
pub fn scale_normal(bits: u64, k: u8) -> (r: i32)
    ensures
        r == spec_scale_normal(bits, k),
{
    let e: u64 = (bits / HIDDEN) % 2048;
    let f: u64 = bits % HIDDEN;
    if e == 2047 && f != 0 {
        return 0;
    }
    let negative: bool = bits >= 0x8000_0000_0000_0000;
    let m: u64 = if e == 0 { f } else { f + HIDDEN };
    assert(m * k <= 0x20_0000_0000_0000 * 255) by (nonlinear_arith)
        requires
            0 <= m <= 0x20_0000_0000_0000,
            0 <= k <= 255,
    ;
    let product: u64 = m * (k as u64);
    let magnitude: u64 = if e >= 1075 {
        proof {
            lemma_pow2_pos((e - 1075) as nat);
            let p = pow2((e - 1075) as nat) as int;
            if product > 0 {
                assert(m * k * p >= 0x10_0000_0000_0000) by (nonlinear_arith)
                    requires
                        m >= 0x10_0000_0000_0000,
                        k >= 1,
                        p >= 1,
                ;
            } else {
                assert(m * k * p == 0) by (nonlinear_arith)
                    requires
                        m * k == 0,
                ;
            }
        }
        if product > 0 {
            0x8000_0000
        } else {
            0
        }
    } else {
        let shift: u64 = if e == 0 { 1074 } else { 1075 - e };
        if shift >= 64 {
            proof {
                lemma2_to64();
                if shift > 64 {
                    lemma_pow2_strictly_increases(64, shift as nat);
                }
                let p = pow2(shift as nat) as int;
                assert(product as int / p == 0) by (nonlinear_arith)
                    requires
                        0 <= product < 0x1_0000_0000_0000_0000,
                        p >= 0x1_0000_0000_0000_0000,
                ;
            }
            0
        } else {
            proof {
                vstd::bits::lemma_u64_shr_is_div(product, shift);
            }
            product >> shift
        }
    };
    assert(e < 1075 ==> magnitude == scaled_magnitude(bits, k as int));
    assert(e >= 1075 ==> (magnitude >= 0x8000_0000 <==> scaled_magnitude(bits, k as int)
        >= 0x8000_0000) && (magnitude == 0 <==> scaled_magnitude(bits, k as int) == 0));
    if negative {
        if magnitude >= 0x8000_0000 {
            i32::MIN
        } else {
            -(magnitude as i32)
        }
    } else {
        if magnitude > 0x7fff_ffff {
            i32::MAX
        } else {
            magnitude as i32
        }
    }
}

/// `r` is `k` times some 64-bit floating-point number, rounded towards zero
/// and limited to the range of `i32`: what `scale_normal` makes of the bits
/// of a number, whichever number was drawn.
pub open spec fn scaled_draw(r: int, k: u8) -> bool {
    exists|bits: u64| r == #[trigger] spec_scale_normal(bits, k)
}

/// A seeded generator together with the number of perturbations that may
/// still be drawn from it.
pub struct Sampler {
    rng: rand::StdRng,
    budget: u64,
}

impl Sampler {
    /// The number of perturbations that may still be drawn.
    pub closed spec fn budget(&self) -> u64 {
        self.budget
    }

    /// A sampler that draws from `rng` and grants `budget` perturbations.
    pub fn new(rng: rand::StdRng, budget: u64) -> (s: Sampler)
        ensures
            s.budget() == budget,
    {
        Sampler { rng, budget }
    }

    /// The number of perturbations that may still be drawn.
    pub fn left(&self) -> (n: u64)
        ensures
            n == self.budget(),
    {
        self.budget
    }

    /// Grants `budget` perturbations from now on.
    pub fn refill(&mut self, budget: u64)
        ensures
            final(self).budget() == budget,
    {
        self.budget = budget;
    }

    /// Takes one perturbation from the budget and says whether there was
    /// one to take.
    pub fn spend(&mut self) -> (granted: bool)
        ensures
            granted == (old(self).budget() > 0),
            granted ==> final(self).budget() == old(self).budget() - 1,
            !granted ==> final(self).budget() == 0,
    {
        if self.budget > 0 {
            self.budget -= 1;
            true
        } else {
            false
        }
    }

    /// A number drawn from `lo..hi`, each as likely as the other.
    pub fn uniform(&mut self, lo: i32, hi: i32) -> (r: i32)
        requires
            lo < hi,
        ensures
            lo <= r < hi,
            final(self).budget() == old(self).budget(),
    {
        gen_range(&mut self.rng, lo, hi)
    }

    /// `k` times a number drawn from the standard normal distribution,
    /// rounded towards zero: what `scale_normal` makes of the bits of the
    /// number drawn. The budget stays as it is.
    pub fn offset(&mut self, k: u8) -> (r: i32)
        ensures
            scaled_draw(r as int, k),
            final(self).budget() == old(self).budget(),
    {
        let bits: u64 = rng_normal(&mut self.rng);
        scale_normal(bits, k)
    }
}

} // verus!
