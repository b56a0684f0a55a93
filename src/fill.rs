use crate::records::DbCommon;
use rand::rngs::StdRng;
use rand::{Rng, SeedableRng};
use vstd::prelude::*;

verus! {

#[verifier::external_type_specification]
#[verifier::external_body]
pub struct ExStdRng(StdRng);

/// Relies on rand's `SeedableRng::seed_from_u64`: a generator whose draws the
/// seed alone fixes.
#[verifier::external_body]
fn seeded_rng(seed: u64) -> StdRng {
    StdRng::seed_from_u64(seed)
}

/// Relies on rand's `Rng::gen_range`: a value of the half-open range, which
/// must not be empty (an empty one panics).
#[verifier::external_body]
fn draw_below(rng: &mut StdRng, bound: i32) -> (r: i32)
    requires
        0 < bound,
    ensures
        0 <= r < bound,
{
    rng.gen_range(0..bound)
}

impl DbCommon {
    /// `len` pseudo-random values in `0..bound`, all drawn from one generator
    /// that `seed` fixes, so that equal arguments give equal contents.
    pub fn initial_records(len: usize, bound: i32, seed: u64) -> (r: Vec<i32>)
        requires
            0 < bound,
        ensures
            r@.len() == len,
            forall|i: int| 0 <= i < len ==> 0 <= #[trigger] r@[i] < bound,
    {
        let mut rng = seeded_rng(seed);
        let mut out: Vec<i32> = Vec::with_capacity(len);
        let mut i: usize = 0;
        while i < len
            invariant
                i <= len,
                0 < bound,
                out@.len() == i,
                forall|j: int| 0 <= j < i ==> 0 <= #[trigger] out@[j] < bound,
            decreases len - i,
        {
            let value = draw_below(&mut rng, bound);
            out.push(value);
            i = i + 1;
        }
        out
    }
}

} // verus!
