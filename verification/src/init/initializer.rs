use crate::bounds::{Bounds, BoundsModel};
use rand::rngs::StdRng;
use vstd::prelude::*;

verus! {

/// Why no population was produced.
#[derive(Debug, Clone, Copy, PartialEq, Eq)]
pub enum InitError {
    /// A population of this size was asked for; it must be at least one.
    InvalidPopSize(usize),
}

/// `pop` holds exactly `size` vectors, each feasible in `space`.
pub open spec fn is_population(space: BoundsModel, pop: Seq<Vec<i64>>, size: nat) -> bool {
    &&& pop.len() == size
    &&& forall|i: int| 0 <= i < pop.len() ==> space.feasible(#[trigger] pop[i]@)
}

/// A strategy that seeds the initial population of a run.
pub trait Initializer: Send + Sync {
    /// Produces `pop_size` feasible vectors, drawing from `rng`. A size of
    /// zero is refused with `InvalidPopSize`; whatever is returned as a
    /// population has the size asked for and lies inside `bounds`.
    fn initialize(&self, pop_size: usize, bounds: &Bounds, rng: &mut StdRng) -> (r: Result<
        Vec<Vec<i64>>,
        InitError,
    >)
        ensures
            pop_size == 0 ==> r == Err::<Vec<Vec<i64>>, InitError>(
                InitError::InvalidPopSize(pop_size),
            ),
            r matches Ok(pop) ==> is_population(bounds@, pop@, pop_size as nat),
    ;
}

} // verus!
