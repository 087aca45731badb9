use rand::rngs::StdRng;
use rand::Rng;
use vstd::prelude::*;

verus! {

/// The seedable generator that supplies every random draw.
#[verifier::external_type_specification]
#[verifier::external_body]
pub struct ExStdRng(rand::rngs::StdRng);

/// Why a search space could not be built.
#[derive(Debug, Clone, Copy, PartialEq, Eq)]
#[allow(inconsistent_fields)]
pub enum BoundsError {
    /// The lower and upper limits differ in length.
    DimMismatch { lo: usize, hi: usize },
    /// At coordinate `i` the lower limit exceeds the upper limit.
    InvalidInterval { i: usize, lo: i64, hi: i64 },
    /// The search space would have no coordinate.
    InvalidDim { dim: usize },
}

/// How a coordinate outside its interval is repaired.
#[derive(Debug, Clone, Copy, PartialEq, Eq, Default)]
pub enum Policy {
    /// Replace the coordinate by the nearest limit of its interval.
    #[default]
    Clamp,
}

#[derive(Debug)]
#[allow(inconsistent_fields)]
enum Shape {
    /// One interval shared by all coordinates.
    Uniform { lo: i64, hi: i64, dim: usize },
    /// One interval per coordinate.
    PerDim { lo: Vec<i64>, hi: Vec<i64> },
}

/// The feasible region of a search space: a closed interval per coordinate
/// and a policy for repairing coordinates that left it.
#[derive(Debug)]
pub struct Bounds {
    shape: Shape,
    policy: Policy,
}

/// What a `Bounds` stands for: the limits of each coordinate, and the policy.
pub struct BoundsModel {
    pub lower: Seq<i64>,
    pub upper: Seq<i64>,
    pub policy: Policy,
}

/// The smaller of two values.
pub open spec fn min_of(a: i64, b: i64) -> i64 {
    if a <= b {
        a
    } else {
        b
    }
}

/// The larger of two values.
pub open spec fn max_of(a: i64, b: i64) -> i64 {
    if a >= b {
        a
    } else {
        b
    }
}

/// One coordinate after repair under `policy`, for the interval `[lo, hi]`.
pub open spec fn repaired_coord(policy: Policy, lo: i64, hi: i64, x: i64) -> i64 {
    match policy {
        Policy::Clamp => max_of(lo, min_of(hi, x)),
    }
}

/// Every lower limit is at most its upper limit.
pub open spec fn ordered_pairwise(lo: Seq<i64>, hi: Seq<i64>) -> bool {
    forall|i: int| 0 <= i < lo.len() && i < hi.len() ==> lo[i] <= hi[i]
}

/// `i` is the first coordinate whose lower limit exceeds its upper limit.
pub open spec fn first_inverted(lo: Seq<i64>, hi: Seq<i64>, i: int) -> bool {
    &&& 0 <= i < lo.len()
    &&& i < hi.len()
    &&& lo[i] > hi[i]
    &&& forall|j: int| 0 <= j < i ==> lo[j] <= hi[j]
}

impl BoundsModel {
    /// The number of coordinates.
    pub open spec fn dim(self) -> nat {
        self.lower.len()
    }

    /// At least one coordinate, as many upper as lower limits, and no
    /// empty interval.
    pub open spec fn valid(self) -> bool {
        &&& self.lower.len() >= 1
        &&& self.lower.len() == self.upper.len()
        &&& ordered_pairwise(self.lower, self.upper)
    }

    /// `v` has one coordinate per interval, each inside its interval.
    pub open spec fn feasible(self, v: Seq<i64>) -> bool {
        &&& v.len() == self.lower.len()
        &&& forall|i: int| 0 <= i < v.len() ==> self.lower[i] <= #[trigger] v[i] <= self.upper[i]
    }

    /// `v` with every coordinate repaired under the policy.
    pub open spec fn repaired(self, v: Seq<i64>) -> Seq<i64> {
        Seq::new(
            v.len(),
            |i: int| repaired_coord(self.policy, self.lower[i], self.upper[i], v[i]),
        )
    }

    /// The model of `dim` coordinates that share the interval `[lo, hi]`.
    pub open spec fn uniform(lo: i64, hi: i64, dim: nat) -> BoundsModel {
        BoundsModel {
            lower: Seq::new(dim, |i: int| lo),
            upper: Seq::new(dim, |i: int| hi),
            policy: Policy::Clamp,
        }
    }
}

impl View for Bounds {
    type V = BoundsModel;

    closed spec fn view(&self) -> BoundsModel {
        match self.shape {
            Shape::Uniform { lo, hi, dim } => BoundsModel {
                lower: Seq::new(dim as nat, |i: int| lo),
                upper: Seq::new(dim as nat, |i: int| hi),
                policy: self.policy,
            },
            Shape::PerDim { lo, hi } => BoundsModel { lower: lo@, upper: hi@, policy: self.policy },
        }
    }
}

/// One draw of `rand::Rng::random_range` on `StdRng` over the closed
/// interval `[lo, hi]`. The interval is never empty, so the call returns, and
/// the value it returns lies inside the interval. Which value that is depends
/// on the generator's state, of which nothing is claimed.
#[verifier::external_body]
fn draw_between(rng: &mut StdRng, lo: i64, hi: i64) -> (r: i64)
    requires
        lo <= hi,
    ensures
        lo <= r <= hi,
{
    rng.random_range(lo..=hi)
}

impl Clone for Bounds {
    /// A copy that stands for the same search space.
    fn clone(&self) -> (r: Bounds)
        ensures
            r@ == self@,
    {
        proof {
            use_type_invariant(self);
        }
        match &self.shape {
            Shape::Uniform { lo, hi, dim } => Bounds {
                shape: Shape::Uniform { lo: *lo, hi: *hi, dim: *dim },
                policy: self.policy,
            },
            Shape::PerDim { lo, hi } => {
                let lo2: Vec<i64> = lo.clone();
                let hi2: Vec<i64> = hi.clone();
                assert(lo2@ =~= lo@);
                assert(hi2@ =~= hi@);
                Bounds { shape: Shape::PerDim { lo: lo2, hi: hi2 }, policy: self.policy }
            },
        }
    }
}

impl Bounds {
    #[verifier::type_invariant]
    spec fn inv(&self) -> bool {
        match self.shape {
            Shape::Uniform { lo, hi, dim } => dim >= 1 && lo <= hi,
            Shape::PerDim { lo, hi } => {
                &&& lo@.len() >= 1
                &&& lo@.len() == hi@.len()
                &&& ordered_pairwise(lo@, hi@)
            },
        }
    }

    /// What `uniform` makes of `(lo, hi, dim)`: the model of the search space,
    /// or the fault. A dimension of zero is reported before an empty interval.
    pub open spec fn uniform_outcome(lo: i64, hi: i64, dim: usize) -> Result<
        BoundsModel,
        BoundsError,
    > {
        if dim == 0 {
            Err(BoundsError::InvalidDim { dim })
        } else if lo > hi {
            Err(BoundsError::InvalidInterval { i: 0, lo, hi })
        } else {
            Ok(BoundsModel::uniform(lo, hi, dim as nat))
        }
    }

    /// A search space of `dim` coordinates that all share `[lo, hi]`, with
    /// the clamping policy. Fails with `InvalidDim` when `dim` is zero, else
    /// with `InvalidInterval` when `lo > hi`.
    pub fn uniform(lo: i64, hi: i64, dim: usize) -> (r: Result<Bounds, BoundsError>)
        ensures
            match r {
                Ok(b) => Self::uniform_outcome(lo, hi, dim) == Ok::<BoundsModel, BoundsError>(b@)
                    && b@.valid(),
                Err(e) => Self::uniform_outcome(lo, hi, dim) == Err::<BoundsModel, BoundsError>(e),
            },
    {
        if dim == 0 {
            return Err(BoundsError::InvalidDim { dim });
        }
        if lo > hi {
            return Err(BoundsError::InvalidInterval { i: 0, lo, hi });
        }
        Ok(Bounds { shape: Shape::Uniform { lo, hi, dim }, policy: Policy::Clamp })
    }

    /// A search space with its own interval `[lo[i], hi[i]]` for each
    /// coordinate, with the clamping policy. The limits are checked from left
    /// to right and the first fault is reported: `DimMismatch` when the
    /// lengths differ, `InvalidDim` when both are empty, `InvalidInterval`
    /// for the first coordinate whose lower limit exceeds its upper limit.
    pub fn per_dim(lo: Vec<i64>, hi: Vec<i64>) -> (r: Result<Bounds, BoundsError>)
        ensures
            lo@.len() != hi@.len() ==> r == Err::<Bounds, BoundsError>(
                BoundsError::DimMismatch { lo: lo.len(), hi: hi.len() },
            ),
            lo@.len() == hi@.len() && lo@.len() == 0 ==> r == Err::<Bounds, BoundsError>(
                BoundsError::InvalidDim { dim: 0 },
            ),
            lo@.len() == hi@.len() && lo@.len() > 0 ==> match r {
                Ok(b) => {
                    &&& ordered_pairwise(lo@, hi@)
                    &&& b@ == (BoundsModel { lower: lo@, upper: hi@, policy: Policy::Clamp })
                    &&& b@.valid()
                },
                Err(BoundsError::InvalidInterval { i, lo: l, hi: h }) => {
                    &&& first_inverted(lo@, hi@, i as int)
                    &&& l == lo@[i as int]
                    &&& h == hi@[i as int]
                },
                Err(_) => false,
            },
    {
        if lo.len() != hi.len() {
            return Err(BoundsError::DimMismatch { lo: lo.len(), hi: hi.len() });
        }
        if lo.len() == 0 {
            return Err(BoundsError::InvalidDim { dim: 0 });
        }
        let n: usize = lo.len();
        let mut i: usize = 0;
        while i < n
            invariant
                n == lo@.len(),
                n == hi@.len(),
                i <= n,
                forall|j: int| 0 <= j < i ==> lo@[j] <= hi@[j],
            decreases n - i,
        {
            let l: i64 = lo[i];
            let h: i64 = hi[i];
            if l > h {
                return Err(BoundsError::InvalidInterval { i, lo: l, hi: h });
            }
            i += 1;
        }
        Ok(Bounds { shape: Shape::PerDim { lo, hi }, policy: Policy::Clamp })
    }

    /// The same search space under another repair policy.
    #[must_use]
    pub fn with_policy(self, policy: Policy) -> (r: Bounds)
        ensures
            r@ == (BoundsModel { policy, ..self@ }),
    {
        proof {
            use_type_invariant(&self);
        }
        Bounds { shape: self.shape, policy }
    }

    /// The number of coordinates, which is at least one.
    #[inline]
    #[must_use]
    pub fn dim(&self) -> (d: usize)
        ensures
            d == self@.dim(),
            self@.valid(),
    {
        proof {
            use_type_invariant(self);
        }
        match &self.shape {
            Shape::Uniform { lo: _, hi: _, dim } => *dim,
            Shape::PerDim { lo, hi: _ } => lo.len(),
        }
    }

    /// The lower limit of coordinate `i`.
    #[inline]
    #[must_use]
    pub fn lo_at(&self, i: usize) -> (l: i64)
        requires
            i < self@.dim(),
        ensures
            l == self@.lower[i as int],
    {
        match &self.shape {
            Shape::Uniform { lo, .. } => *lo,
            Shape::PerDim { lo, .. } => lo[i],
        }
    }

    /// The upper limit of coordinate `i`.
    #[inline]
    #[must_use]
    pub fn hi_at(&self, i: usize) -> (h: i64)
        requires
            i < self@.dim(),
        ensures
            h == self@.upper[i as int],
    {
        proof {
            use_type_invariant(self);
        }
        match &self.shape {
            Shape::Uniform { hi, .. } => *hi,
            Shape::PerDim { hi, .. } => hi[i],
        }
    }

    /// The width of coordinate `i`'s interval: upper limit minus lower limit.
    /// The difference of two `i64` always fits in the `u64` returned.
    #[inline]
    #[must_use]
    pub fn span_at(&self, i: usize) -> (s: u64)
        requires
            i < self@.dim(),
        ensures
            s == self@.upper[i as int] - self@.lower[i as int],
    {
        proof {
            use_type_invariant(self);
        }
        let h: i128 = self.hi_at(i) as i128;
        let l: i128 = self.lo_at(i) as i128;
        (h - l) as u64
    }

    /// Repairs `x` in place under the policy, coordinate by coordinate.
    /// Under `Clamp`, coordinate `i` becomes `max(lower(i), min(upper(i), x[i]))`.
    pub fn project_slice(&self, x: &mut [i64])
        requires
            old(x)@.len() == self@.dim(),
        ensures
            final(x)@ == self@.repaired(old(x)@),
            self@.feasible(final(x)@),
    {
        let n: usize = self.dim();
        let mut i: usize = 0;
        while i < n
            invariant
                n == self@.dim(),
                self@.valid(),
                i <= n,
                x@.len() == n,
                old(x)@.len() == n,
                forall|j: int| 0 <= j < i ==> x@[j] == self@.repaired(old(x)@)[j],
                forall|j: int| i <= j < n ==> x@[j] == old(x)@[j],
            decreases n - i,
        {
            let l: i64 = self.lo_at(i);
            let h: i64 = self.hi_at(i);
            let v: i64 = x[i];
            match self.policy {
                Policy::Clamp => {
                    if v < l {
                        x[i] = l;
                    } else if v > h {
                        x[i] = h;
                    }
                },
            }
            i += 1;
        }
        assert(x@ =~= self@.repaired(old(x)@));
    }

    /// A fresh vector with one coordinate per interval, each drawn from the
    /// generator within its closed interval. Whatever the generator yields,
    /// the vector is feasible.
    pub fn gen_random_vec(&self, rng: &mut StdRng) -> (s: Vec<i64>)
        ensures
            self@.feasible(s@),
    {
        let d: usize = self.dim();
        let mut s: Vec<i64> = Vec::with_capacity(d);
        let mut i: usize = 0;
        while i < d
            invariant
                d == self@.dim(),
                self@.valid(),
                i <= d,
                s@.len() == i,
                forall|j: int| 0 <= j < i ==> self@.lower[j] <= #[trigger] s@[j] <= self@.upper[j],
            decreases d - i,
        {
            let random_val: i64 = draw_between(rng, self.lo_at(i), self.hi_at(i));
            s.push(random_val);
            i += 1;
        }
        s
    }
}

/// A uniform search space built from `(lo, hi, dim)` has `dim` coordinates,
/// and every coordinate has the lower limit `lo` and the upper limit `hi`.
pub proof fn lemma_uniform_limits(b: Bounds, lo: i64, hi: i64, dim: usize)
    requires
        dim >= 1,
        lo <= hi,
        Bounds::uniform_outcome(lo, hi, dim) == Ok::<BoundsModel, BoundsError>(b@),
    ensures
        b@.dim() == dim,
        forall|i: int| 0 <= i < dim ==> b@.lower[i] == lo && b@.upper[i] == hi,
{
}

/// Repairing a vector a second time changes nothing.
pub proof fn lemma_repair_idempotent(space: BoundsModel, v: Seq<i64>)
    ensures
        space.repaired(space.repaired(v)) == space.repaired(v),
{
    assert(space.repaired(space.repaired(v)) =~= space.repaired(v));
}

/// Repairing a feasible vector changes nothing.
pub proof fn lemma_repair_feasible_unchanged(space: BoundsModel, v: Seq<i64>)
    requires
        space.feasible(v),
    ensures
        space.repaired(v) == v,
{
    assert(space.repaired(v) =~= v);
}

/// In a valid search space, a repaired vector of the right length is
/// feasible.
pub proof fn lemma_repaired_is_feasible(space: BoundsModel, v: Seq<i64>)
    requires
        space.valid(),
        v.len() == space.dim(),
    ensures
        space.feasible(space.repaired(v)),
{
}

} // verus!
