//! Seeded random number generation and the probability gate.
//!
//! Probabilities are held as parts per billion, and each draw is a uniform
//! integer below [`DRAW_BOUND`]; a gate with probability `p` passes exactly
//! when `p` is greater than the draw.  `SmallRng` is deterministic for a
//! fixed seed but not portable across platforms, so nothing more than the
//! range of a draw is assumed of it.

use vstd::prelude::*;
use rand::Rng;
use rand::SeedableRng;
use rand::rngs::SmallRng;

verus! {

/// Draws are uniform in `[0, DRAW_BOUND)`; probabilities are parts per billion.
pub const DRAW_BOUND: u32 = 1_000_000_000;

#[verifier::external_type_specification]
#[verifier::external_body]
pub struct ExSmallRng(SmallRng);

/// Relies on `SeedableRng::seed_from_u64`, which builds a generator from the seed.
#[verifier::external_body]
fn rng_from_seed(seed: u64) -> (r: SmallRng) {
    SmallRng::seed_from_u64(seed)
}

/// Relies on `SeedableRng::from_entropy`, which builds a generator from system entropy.
#[verifier::external_body]
fn rng_from_entropy() -> (r: SmallRng) {
    SmallRng::from_entropy()
}

/// Relies on `Rng::gen_range`, which returns a value uniform in the given
/// half-open range, so the result is always below `DRAW_BOUND`.
#[verifier::external_body]
pub fn draw(rng: &mut SmallRng) -> (r: u32)
    ensures
        r < DRAW_BOUND,
{
    rng.gen_range(0..DRAW_BOUND)
}

/// A generator from the given seed, or from system entropy when none is given.
pub fn new(seed: Option<u64>) -> SmallRng {
    match seed {
        None => rng_from_entropy(),
        Some(seed) => rng_from_seed(seed),
    }
}

/// Whether a probability gate passes for a given draw.
pub open spec fn spec_gate(p: Option<u32>, d: u32) -> bool {
    match p {
        None => true,
        Some(pv) => pv > d,
    }
}

/// Pass an optional probability gate.  An absent probability always passes
/// and takes no draw; a present one takes exactly one draw.
pub fn sample_p(p: Option<u32>, rng: &mut SmallRng) -> (r: bool)
    ensures
        exists|d: u32| d < DRAW_BOUND && r == spec_gate(p, d),
        p is None ==> r,
        p == Some(0u32) ==> !r,
        (p matches Some(pv) && pv >= DRAW_BOUND) ==> r,
{
    match p {
        None => {
            proof {
                let d0: u32 = 0;
                assert(d0 < DRAW_BOUND);
                assert(spec_gate(p, d0));
                assert(exists|d: u32| d < DRAW_BOUND && true == spec_gate(p, d));
            }
            true
        },
        Some(pv) => {
            let d = draw(rng);
            let r = pv > d;
            proof {
                assert(r == spec_gate(p, d));
                assert(exists|dd: u32| dd < DRAW_BOUND && r == spec_gate(p, dd));
            }
            r
        },
    }
}

} // verus!
