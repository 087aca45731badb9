use crate::decoder::{Decoder, DecoderError};
use crate::objective::{lemma_irreflexive, Objective};
use vstd::prelude::*;
use vstd::seq_lib::seq_to_set_is_finite;
use vstd::set_lib::{lemma_int_range, lemma_subset_equality, set_int_range};

verus! {

/// How one fitness value stands against another under an objective.
#[derive(Debug, Clone, Copy, PartialEq, Eq)]
pub enum Rank {
    /// The first value is strictly better.
    Better,
    /// Neither value is strictly better.
    Tied,
    /// The second value is strictly better.
    Worse,
}

/// The rank of `a` against `b` under `O`.
pub open spec fn rank_of<O: Objective>(a: i64, b: i64) -> Rank {
    if O::prefers(a, b) {
        Rank::Better
    } else if O::prefers(b, a) {
        Rank::Worse
    } else {
        Rank::Tied
    }
}

/// `k` is the first position that the decoder refuses.
pub open spec fn first_refused<D: Decoder>(decoder: &D, positions: Seq<Vec<i64>>, k: int) -> bool {
    &&& 0 <= k < positions.len()
    &&& decoder.decoded(positions[k]@) is Err
    &&& forall|j: int| 0 <= j < k ==> decoder.decoded(#[trigger] positions[j]@) is Ok
}

/// `fitness` holds, in order, what the decoder makes of each position.
pub open spec fn is_evaluation<D: Decoder>(
    decoder: &D,
    positions: Seq<Vec<i64>>,
    fitness: Seq<i64>,
) -> bool {
    &&& fitness.len() == positions.len()
    &&& forall|i: int|
        0 <= i < positions.len() ==> decoder.decoded(#[trigger] positions[i]@) == Ok::<
            i64,
            DecoderError,
        >(fitness[i])
}

/// `b` is the best index of `fitness` under `O`: nothing is preferred to
/// the value there, and that value is preferred to everything before it.
pub open spec fn is_first_best<O: Objective>(fitness: Seq<i64>, b: int) -> bool {
    &&& 0 <= b < fitness.len()
    &&& forall|i: int| 0 <= i < fitness.len() ==> !O::prefers(#[trigger] fitness[i], fitness[b])
    &&& forall|i: int| 0 <= i < b ==> O::prefers(fitness[b], #[trigger] fitness[i])
}

/// `order` lists every index below `n` exactly once.
pub open spec fn is_permutation(order: Seq<int>, n: nat) -> bool {
    &&& order.len() == n
    &&& forall|i: int| 0 <= i < order.len() ==> 0 <= #[trigger] order[i] < n
    &&& forall|i: int, j: int|
        0 <= i < j < order.len() ==> #[trigger] order[i] != #[trigger] order[j]
}

/// `order` ranks the indices of `fitness` from best to worst under `O`, and
/// indices whose values tie stay in the order they came in.
pub open spec fn is_stable_ranking<O: Objective>(fitness: Seq<i64>, order: Seq<int>) -> bool {
    &&& is_permutation(order, fitness.len())
    &&& forall|i: int, j: int|
        0 <= i < j < order.len() ==> !O::prefers(
            fitness[#[trigger] order[j]],
            fitness[#[trigger] order[i]],
        )
    &&& forall|i: int, j: int|
        0 <= i < j < order.len() && !O::prefers(
            fitness[#[trigger] order[i]],
            fitness[#[trigger] order[j]],
        ) ==> order[i] < order[j]
}

/// `after` is `before` read in the sequence that `order` gives.
pub open spec fn is_reordering<A>(before: Seq<A>, order: Seq<int>, after: Seq<A>) -> bool {
    &&& after.len() == order.len()
    &&& forall|k: int| 0 <= k < order.len() ==> #[trigger] after[k] == before[order[k]]
}

/// The rows of a population, each as the sequence of its coordinates.
pub open spec fn rows_of(positions: Seq<Vec<i64>>) -> Seq<Seq<i64>> {
    Seq::new(positions.len(), |i: int| positions[i]@)
}

/// Decodes every position, in order. Returns the fitness of each when the
/// decoder accepts them all; else stops at the first position it refuses and
/// returns that fault.
#[inline]
pub fn evaluate_all<D: Decoder>(decoder: &D, positions: &[Vec<i64>]) -> (r: Result<
    Vec<i64>,
    DecoderError,
>)
    ensures
        match r {
            Ok(fitness) => is_evaluation(decoder, positions@, fitness@),
            Err(e) => exists|k: int|
                #[trigger] first_refused(decoder, positions@, k) && decoder.decoded(positions@[k]@)
                    == Err::<i64, DecoderError>(e),
        },
{
    let n: usize = positions.len();
    let mut fitness: Vec<i64> = Vec::with_capacity(n);
    let mut i: usize = 0;
    while i < n
        invariant
            n == positions@.len(),
            i <= n,
            fitness@.len() == i,
            forall|j: int|
                0 <= j < i ==> decoder.decoded(#[trigger] positions@[j]@) == Ok::<
                    i64,
                    DecoderError,
                >(fitness@[j]),
        decreases n - i,
    {
        match decoder.decode(positions[i].as_slice()) {
            Ok(f) => {
                fitness.push(f);
            },
            Err(e) => {
                assert(first_refused(decoder, positions@, i as int));
                return Err(e);
            },
        }
        i += 1;
    }
    Ok(fitness)
}

/// The index of the best fitness under `O`. Where several values tie for
/// best, the first of them wins.
#[inline]
#[must_use]
pub fn best_index_with<O>(fitness: &[i64]) -> (best_i: usize) where O: Objective
    requires
        fitness@.len() > 0,
    ensures
        is_first_best::<O>(fitness@, best_i as int),
{
    let mut best_i: usize = 0;
    let mut best_f: i64 = fitness[0];
    let mut i: usize = 1;
    proof {
        lemma_irreflexive::<O>(best_f);
    }
    while i < fitness.len()
        invariant
            1 <= i <= fitness@.len(),
            best_i < i,
            best_f == fitness@[best_i as int],
            forall|j: int| 0 <= j < i ==> !O::prefers(#[trigger] fitness@[j], best_f),
            forall|j: int| 0 <= j < best_i ==> O::prefers(best_f, #[trigger] fitness@[j]),
        decreases fitness@.len() - i,
    {
        let f: i64 = fitness[i];
        if O::better(f, best_f) {
            assert forall|j: int| 0 <= j < i implies O::prefers(f, #[trigger] fitness@[j]) by {
                if !O::prefers(f, fitness@[j]) {
                    O::law_negatively_transitive(f, fitness@[j], best_f);
                }
            }
            assert forall|j: int| 0 <= j < i + 1 implies !O::prefers(#[trigger] fitness@[j], f) by {
                if j < i {
                    O::law_asymmetric(f, fitness@[j]);
                } else {
                    lemma_irreflexive::<O>(f);
                }
            }
            best_i = i;
            best_f = f;
        }
        i += 1;
    }
    best_i
}

/// Ranks `a` against `b` under `O`.
#[inline]
pub fn rank_fitness<O>(a: i64, b: i64) -> (r: Rank) where O: Objective
    ensures
        r == rank_of::<O>(a, b),
{
    if O::better(a, b) {
        Rank::Better
    } else if O::better(b, a) {
        Rank::Worse
    } else {
        Rank::Tied
    }
}

/// The indices held in `idx`, as mathematical integers.
pub open spec fn as_order(idx: Seq<usize>) -> Seq<int> {
    Seq::new(idx.len(), |i: int| idx[i] as int)
}

/// Inserting index `k` behind everything that is not worse than it keeps a
/// stable ranking of the first `k` values a stable ranking of the first
/// `k + 1`.
proof fn lemma_insert_keeps_ranking<O: Objective>(
    fitness: Seq<i64>,
    order: Seq<int>,
    k: int,
    p: int,
)
    requires
        0 <= k < fitness.len(),
        is_stable_ranking::<O>(fitness.take(k), order),
        0 <= p <= k,
        forall|j: int| p <= j < k ==> O::prefers(fitness[k], fitness[#[trigger] order[j]]),
        p > 0 ==> !O::prefers(fitness[k], fitness[order[p - 1]]),
    ensures
        is_stable_ranking::<O>(fitness.take(k + 1), order.insert(p, k)),
{
    let before = fitness.take(k);
    let after = fitness.take(k + 1);
    let grown = order.insert(p, k);
    assert(grown.len() == k + 1);
    assert forall|i: int| 0 <= i < grown.len() implies 0 <= #[trigger] grown[i] < k + 1 by {
        if i < p {
            assert(grown[i] == order[i]);
        } else if i > p {
            assert(grown[i] == order[i - 1]);
        }
    }
    assert forall|i: int, j: int| 0 <= i < j < grown.len() implies {
        &&& #[trigger] grown[i] != #[trigger] grown[j]
        &&& !O::prefers(after[grown[j]], after[grown[i]])
        &&& !O::prefers(after[grown[i]], after[grown[j]]) ==> grown[i] < grown[j]
    } by {
        let a = if i < p { i } else { i - 1 };
        let b = if j < p { j } else { j - 1 };
        if i != p {
            assert(grown[i] == order[a]);
            assert(after[grown[i]] == before[order[a]]);
        }
        if j != p {
            assert(grown[j] == order[b]);
            assert(after[grown[j]] == before[order[b]]);
        }
        if j == p {
            // everything before the new index is not worse than it
            assert(!O::prefers(fitness[k], fitness[order[p - 1]]));
            if i < p - 1 {
                assert(!O::prefers(before[order[p - 1]], before[order[i]]));
                O::law_negatively_transitive(
                    fitness[k],
                    fitness[order[p - 1]],
                    fitness[order[i]],
                );
            }
        } else if i == p {
            // everything behind the new index is strictly worse than it
            assert(O::prefers(fitness[k], fitness[order[b]]));
            O::law_asymmetric(fitness[k], fitness[order[b]]);
        } else {
            assert(a < b);
        }
    }
}

/// Reorders `positions` and `fitness` together, from best to worst under
/// `O`. Entries whose fitness ties keep the relative order they came in.
pub fn sort_by_fitness_with<O>(positions: &mut Vec<Vec<i64>>, fitness: &mut Vec<i64>) where
    O: Objective,

    requires
        old(positions)@.len() == old(fitness)@.len(),
    ensures
        exists|order: Seq<int>|
            {
                &&& #[trigger] is_stable_ranking::<O>(old(fitness)@, order)
                &&& is_reordering(old(fitness)@, order, final(fitness)@)
                &&& is_reordering(rows_of(old(positions)@), order, rows_of(final(positions)@))
            },
        final(fitness)@.to_multiset() == old(fitness)@.to_multiset(),
        rows_of(final(positions)@).to_multiset() == rows_of(old(positions)@).to_multiset(),
{
    let n: usize = fitness.len();
    let mut idx: Vec<usize> = Vec::with_capacity(n);
    let mut k: usize = 0;
    while k < n
        invariant
            n == fitness@.len(),
            k <= n,
            idx@.len() == k,
            is_stable_ranking::<O>(fitness@.take(k as int), as_order(idx@)),
        decreases n - k,
    {
        let f: i64 = fitness[k];
        let mut p: usize = k;
        let mut searching: bool = true;
        while searching && p > 0
            invariant
                n == fitness@.len(),
                k < n,
                idx@.len() == k,
                f == fitness@[k as int],
                p <= k,
                is_stable_ranking::<O>(fitness@.take(k as int), as_order(idx@)),
                forall|j: int| p <= j < k ==> O::prefers(f, fitness@[#[trigger] as_order(idx@)[j]]),
                !searching ==> p > 0 && !O::prefers(f, fitness@[as_order(idx@)[p - 1]]),
            decreases p + if searching { 1int } else { 0int },
        {
            let q: usize = idx[p - 1];
            assert(0 <= as_order(idx@)[p - 1] < k);
            match rank_fitness::<O>(f, fitness[q]) {
                Rank::Better => {
                    p -= 1;
                },
                _ => {
                    searching = false;
                },
            }
        }
        proof {
            lemma_insert_keeps_ranking::<O>(fitness@, as_order(idx@), k as int, p as int);
            assert(as_order(idx@).insert(p as int, k as int) =~= as_order(
                idx@.insert(p as int, k),
            ));
        }
        idx.insert(p, k);
        k += 1;
    }
    assert(fitness@.take(n as int) =~= fitness@);
    let mut new_pos: Vec<Vec<i64>> = Vec::with_capacity(n);
    let mut new_fit: Vec<i64> = Vec::with_capacity(n);
    let mut t: usize = 0;
    while t < n
        invariant
            n == fitness@.len(),
            n == positions@.len(),
            n == idx@.len(),
            t <= n,
            is_stable_ranking::<O>(fitness@, as_order(idx@)),
            new_fit@.len() == t,
            new_pos@.len() == t,
            forall|j: int| 0 <= j < t ==> #[trigger] new_fit@[j] == fitness@[as_order(idx@)[j]],
            forall|j: int| 0 <= j < t ==> (#[trigger] new_pos@[j])@ == positions@[as_order(idx@)[j]]@,
        decreases n - t,
    {
        let src: usize = idx[t];
        assert(0 <= as_order(idx@)[t as int] < n);
        let row: Vec<i64> = positions[src].clone();
        assert(row@ =~= positions@[src as int]@);
        new_pos.push(row);
        new_fit.push(fitness[src]);
        t += 1;
    }
    *positions = new_pos;
    *fitness = new_fit;
    proof {
        let order = as_order(idx@);
        assert(is_reordering(old(fitness)@, order, fitness@));
        assert(is_reordering(rows_of(old(positions)@), order, rows_of(positions@)));
        lemma_reordering_keeps_multiset(old(fitness)@, order, fitness@);
        lemma_reordering_keeps_multiset(rows_of(old(positions)@), order, rows_of(positions@));
    }
}

/// At most one index is the best of a fitness sequence.
pub proof fn lemma_first_best_unique<O: Objective>(fitness: Seq<i64>, a: int, b: int)
    requires
        is_first_best::<O>(fitness, a),
        is_first_best::<O>(fitness, b),
    ensures
        a == b,
{
    if a < b {
        assert(O::prefers(fitness[b], fitness[a]));
        assert(!O::prefers(fitness[b], fitness[a]));
    } else if b < a {
        assert(O::prefers(fitness[a], fitness[b]));
        assert(!O::prefers(fitness[a], fitness[b]));
    }
}

/// A permutation of the indices below `n` holds every one of them.
pub proof fn lemma_permutation_covers(order: Seq<int>, n: nat, x: int)
    requires
        is_permutation(order, n),
        0 <= x < n,
    ensures
        exists|j: int| 0 <= j < n && order[j] == x,
{
    let all = set_int_range(0, n as int);
    lemma_int_range(0, n as int);
    assert(order.no_duplicates());
    order.unique_seq_to_set();
    seq_to_set_is_finite(order);
    assert(order.to_set().subset_of(all)) by {
        assert forall|a: int| order.to_set().contains(a) implies all.contains(a) by {
            assert(order.contains(a));
            let i = choose|i: int| 0 <= i < order.len() && order[i] == a;
            assert(0 <= order[i] < n);
        }
    }
    lemma_subset_equality(order.to_set(), all);
    assert(all.contains(x));
    assert(order.to_set().contains(x));
    assert(order.contains(x));
    let j = choose|j: int| 0 <= j < order.len() && order[j] == x;
    assert(0 <= j < n && order[j] == x);
}

/// Reading a sequence in the order of a permutation of its indices keeps
/// every element, as often as it occurred.
pub proof fn lemma_reordering_keeps_multiset<A>(before: Seq<A>, order: Seq<int>, after: Seq<A>)
    requires
        is_permutation(order, before.len()),
        is_reordering(before, order, after),
    ensures
        after.to_multiset() == before.to_multiset(),
    decreases before.len(),
{
    broadcast use vstd::seq_lib::group_to_multiset_ensures;

    let n = before.len() as int;
    if n == 0 {
        assert(after =~= before);
    } else {
        let w = order[n - 1];
        let fewer = Seq::new(
            (n - 1) as nat,
            |k: int|
                if order[k] > w {
                    order[k] - 1
                } else {
                    order[k]
                },
        );
        let before_rest = before.remove(w);
        let after_rest = after.drop_last();
        assert forall|k: int| 0 <= k < n - 1 implies order[k] != w by {
            assert(order[k] != order[n - 1]);
        }
        assert forall|i: int, j: int| 0 <= i < j < fewer.len() implies #[trigger] fewer[i]
            != #[trigger] fewer[j] by {
            assert(order[i] != order[j]);
        }
        assert(is_permutation(fewer, before_rest.len()));
        assert(is_reordering(before_rest, fewer, after_rest));
        lemma_reordering_keeps_multiset(before_rest, fewer, after_rest);
        assert(after =~= after_rest.push(before[w]));
        assert(before_rest.to_multiset() == before.to_multiset().remove(before[w]));
        assert(before.contains(before[w]));
        assert(before.to_multiset() =~= before.to_multiset().remove(before[w]).insert(before[w]));
    }
}

/// A fitness sequence has one stable ranking only: below `upto`, any two
/// agree.
proof fn lemma_rankings_agree_below<O: Objective>(
    fitness: Seq<i64>,
    first: Seq<int>,
    second: Seq<int>,
    upto: int,
)
    requires
        is_stable_ranking::<O>(fitness, first),
        is_stable_ranking::<O>(fitness, second),
        0 <= upto <= fitness.len(),
    ensures
        forall|t: int| 0 <= t < upto ==> first[t] == second[t],
    decreases upto,
{
    if upto > 0 {
        lemma_rankings_agree_below::<O>(fitness, first, second, upto - 1);
        let m = upto - 1;
        let a = first[m];
        let b = second[m];
        if a != b {
            lemma_permutation_covers(second, fitness.len(), a);
            lemma_permutation_covers(first, fitness.len(), b);
            let j = choose|j: int| 0 <= j < fitness.len() && second[j] == a;
            let i = choose|i: int| 0 <= i < fitness.len() && first[i] == b;
            if j < m {
                assert(first[j] == second[j]);
                assert(first[j] != first[m]);
            }
            if i < m {
                assert(first[i] == second[i]);
                assert(second[i] != second[m]);
            }
            // the second ranking puts b before a, the first puts a before b
            assert(!O::prefers(fitness[second[j]], fitness[second[m]]));
            assert(!O::prefers(fitness[first[i]], fitness[first[m]]));
            assert(second[m] < second[j]);
            assert(first[m] < first[i]);
        }
    }
}

/// A fitness sequence has one stable ranking only, so sorting by fitness
/// has one possible outcome.
pub proof fn lemma_stable_ranking_unique<O: Objective>(
    fitness: Seq<i64>,
    first: Seq<int>,
    second: Seq<int>,
)
    requires
        is_stable_ranking::<O>(fitness, first),
        is_stable_ranking::<O>(fitness, second),
    ensures
        first == second,
{
    lemma_rankings_agree_below::<O>(fitness, first, second, fitness.len() as int);
    assert(first =~= second);
}

/// The stable ranking of a fitness sequence starts with its best index:
/// after sorting, the best individual stands first.
pub proof fn lemma_ranking_starts_with_best<O: Objective>(fitness: Seq<i64>, order: Seq<int>)
    requires
        fitness.len() > 0,
        is_stable_ranking::<O>(fitness, order),
    ensures
        is_first_best::<O>(fitness, order[0]),
{
    let head = order[0];
    assert forall|x: int| 0 <= x < fitness.len() implies {
        &&& !O::prefers(#[trigger] fitness[x], fitness[head])
        &&& x < head ==> O::prefers(fitness[head], fitness[x])
    } by {
        lemma_permutation_covers(order, fitness.len(), x);
        let j = choose|j: int| 0 <= j < fitness.len() && order[j] == x;
        if j == 0 {
            lemma_irreflexive::<O>(fitness[x]);
        } else {
            assert(!O::prefers(fitness[order[j]], fitness[order[0]]));
            if !O::prefers(fitness[order[0]], fitness[order[j]]) {
                assert(order[0] < order[j]);
            }
        }
    }
}

} // verus!
