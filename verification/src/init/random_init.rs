use crate::bounds::Bounds;
use crate::init::initializer::{is_population, InitError, Initializer};
use rand::rngs::StdRng;
use vstd::prelude::*;

verus! {

/// Seeds a population by drawing every coordinate at random inside its
/// interval.
#[derive(Default, Clone, Copy, Debug)]
pub struct RandomInitializer;

impl Initializer for RandomInitializer {
    /// Succeeds for every size but zero.
    fn initialize(&self, pop_size: usize, bounds: &Bounds, rng: &mut StdRng) -> (r: Result<
        Vec<Vec<i64>>,
        InitError,
    >)
        ensures
            pop_size > 0 ==> r is Ok,
    {
        if pop_size == 0 {
            return Err(InitError::InvalidPopSize(pop_size));
        }
        let dim: usize = bounds.dim();
        let mut positions: Vec<Vec<i64>> = Vec::with_capacity(pop_size);
        let mut k: usize = 0;
        while k < pop_size
            invariant
                k <= pop_size,
                dim == bounds@.dim(),
                is_population(bounds@, positions@, k as nat),
            decreases pop_size - k,
        {
            let mut x: Vec<i64> = bounds.gen_random_vec(rng);
            bounds.project_slice(x.as_mut_slice());
            positions.push(x);
            k += 1;
        }
        Ok(positions)
    }
}

} // verus!
