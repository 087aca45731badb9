use vstd::prelude::*;

verus! {

/// A direction of optimisation, chosen once per run as a type parameter.
///
/// `prefers` is a strict weak order on fitness values: nothing is preferred to
/// itself, no two values are preferred to each other, and "not preferred" is
/// transitive. Ranking relies on exactly these laws.
pub trait Objective {
    /// `a` is strictly preferred to `b`.
    spec fn prefers(a: i64, b: i64) -> bool;

    /// Decides whether `a` is strictly better than `b`. Equal values are
    /// never better than each other.
    fn better(a: i64, b: i64) -> (r: bool)
        ensures
            r == Self::prefers(a, b),
    ;

    /// Two values are never each preferred to the other.
    proof fn law_asymmetric(a: i64, b: i64)
        requires
            Self::prefers(a, b),
        ensures
            !Self::prefers(b, a),
    ;

    /// If `a` is not preferred to `b` and `b` is not preferred to `c`, then
    /// `a` is not preferred to `c`.
    proof fn law_negatively_transitive(a: i64, b: i64, c: i64)
        requires
            !Self::prefers(a, b),
            !Self::prefers(b, c),
        ensures
            !Self::prefers(a, c),
    ;
}

/// Smaller fitness is better.
pub struct Minimization;

/// Larger fitness is better.
pub struct Maximization;

impl Objective for Minimization {
    open spec fn prefers(a: i64, b: i64) -> bool {
        a < b
    }

    #[inline]
    fn better(a: i64, b: i64) -> (r: bool) {
        a < b
    }

    proof fn law_asymmetric(a: i64, b: i64) {
    }

    proof fn law_negatively_transitive(a: i64, b: i64, c: i64) {
    }
}

impl Objective for Maximization {
    open spec fn prefers(a: i64, b: i64) -> bool {
        a > b
    }

    fn better(a: i64, b: i64) -> (r: bool) {
        a > b
    }

    proof fn law_asymmetric(a: i64, b: i64) {
    }

    proof fn law_negatively_transitive(a: i64, b: i64, c: i64) {
    }
}

/// Nothing is preferred to itself, under any objective.
pub proof fn lemma_irreflexive<O: Objective>(a: i64)
    ensures
        !O::prefers(a, a),
{
    if O::prefers(a, a) {
        O::law_asymmetric(a, a);
    }
}

/// Preference is transitive, under any objective.
pub proof fn lemma_transitive<O: Objective>(a: i64, b: i64, c: i64)
    requires
        O::prefers(a, b),
        O::prefers(b, c),
    ensures
        O::prefers(a, c),
{
    O::law_asymmetric(a, b);
    if !O::prefers(a, c) {
        // c is not preferred to b, and a is not preferred to c
        O::law_asymmetric(b, c);
        O::law_negatively_transitive(a, c, b);
    }
}

} // verus!
