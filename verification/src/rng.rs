use vstd::prelude::*;

verus! {

/// A small deterministic pseudo-random generator (splitmix-style mixing of
/// a 64-bit counter). The same seed always yields the same stream, which
/// makes randomized construction and perturbation reproducible.
pub struct Rng {
    state: u64,
}

impl Rng {
    /// A generator whose whole stream is determined by `seed`.
    pub fn new(seed: u64) -> Rng {
        Rng { state: seed }
    }

    /// The next raw 64-bit value of the stream.
    pub fn next_u64(&mut self) -> u64 {
        let s1: u64 = #[verifier::truncate] (((self.state as u128)
            + 0x9E37_79B9_7F4A_7C15u128) as u64);
        self.state = s1;
        let z1: u64 = #[verifier::truncate] ((((s1 ^ (s1 >> 30)) as u128)
            * 0xBF58_476D_1CE4_E5B9u128) as u64);
        let z2: u64 = #[verifier::truncate] ((((z1 ^ (z1 >> 27)) as u128)
            * 0x94D0_49BB_1331_11EBu128) as u64);
        z2 ^ (z2 >> 31)
    }

    /// A pseudo-random value below `bound`.
    pub fn below(&mut self, bound: usize) -> (r: usize)
        requires
            bound >= 1,
        ensures
            r < bound,
    {
        let x = self.next_u64();
        (x % (bound as u64)) as usize
    }
}

} // verus!
