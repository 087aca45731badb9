use vstd::prelude::*;

verus! {

/// A candidate solution with a number of genes.
pub trait Genome: Send + Sync {
    /// The number of genes. A verified genome defines it; for any other it
    /// is the number that `len` is trusted to return.
    open spec fn genes(&self) -> nat {
        arbitrary()
    }

    /// The number of genes.
    fn len(&self) -> (n: usize)
        ensures
            n == self.genes(),
    ;

    /// Whether there is no gene at all.
    fn is_empty(&self) -> (e: bool)
        ensures
            e == (self.genes() == 0),
    {
        self.len() == 0
    }
}

} // verus!
