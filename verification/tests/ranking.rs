use optim_core::decoder::{Decoder, DecoderError};
use optim_core::objective::{Maximization, Minimization, Objective};
use optim_core::utils::{best_index_with, evaluate_all, rank_fitness, sort_by_fitness_with, Rank};

struct SumOfPair;

impl Decoder for SumOfPair {
    fn decode(&self, solution: &[i64]) -> Result<i64, DecoderError> {
        if solution.len() != 2 {
            return Err(DecoderError::InvalidDimension { expected: 2, received: solution.len() });
        }
        if solution[0] < 0 {
            return Err(DecoderError::UnknownError);
        }
        if solution[0] > 100 {
            return Err(DecoderError::OutOfBounds { value: solution[0] as usize, upper_bound: 100 });
        }
        Ok(solution[0] + solution[1])
    }
}

#[test]
fn maximization_minimization_test() {
    let a: i64 = 1000;
    let b: i64 = 999;

    assert!(Maximization::better(a, b));
    assert!(!Maximization::better(b, a));

    assert!(Minimization::better(b, a));
    assert!(!Minimization::better(a, b));
}

#[test]
fn equal_fitness_is_never_better() {
    assert!(!Maximization::better(5, 5));
    assert!(!Minimization::better(5, 5));
    assert!(!Maximization::better(i64::MIN, i64::MIN));
    assert!(!Minimization::better(i64::MAX, i64::MAX));
}

#[test]
fn rank_fitness_follows_the_objective() {
    assert_eq!(rank_fitness::<Minimization>(1, 2), Rank::Better);
    assert_eq!(rank_fitness::<Minimization>(2, 1), Rank::Worse);
    assert_eq!(rank_fitness::<Minimization>(2, 2), Rank::Tied);
    assert_eq!(rank_fitness::<Maximization>(1, 2), Rank::Worse);
    assert_eq!(rank_fitness::<Maximization>(2, 1), Rank::Better);
    assert_eq!(rank_fitness::<Maximization>(2, 2), Rank::Tied);
}

#[test]
fn best_index_follows_the_objective() {
    let fitness = [1000, 999];
    assert_eq!(best_index_with::<Maximization>(&fitness), 0);
    assert_eq!(best_index_with::<Minimization>(&fitness), 1);
}

#[test]
fn best_index_of_one_value_is_zero() {
    assert_eq!(best_index_with::<Maximization>(&[4]), 0);
    assert_eq!(best_index_with::<Minimization>(&[4]), 0);
}

#[test]
fn best_index_picks_first_among_ties() {
    let fitness = [3, 1, 7, 1, 7, 2];
    assert_eq!(best_index_with::<Minimization>(&fitness), 1);
    assert_eq!(best_index_with::<Maximization>(&fitness), 2);
    assert_eq!(best_index_with::<Minimization>(&[5, 5, 5]), 0);
}

#[test]
fn sort_orders_fitness_and_positions_together() {
    let mut positions = vec![vec![10], vec![20], vec![30]];
    let mut fitness = vec![3, 1, 2];
    sort_by_fitness_with::<Minimization>(&mut positions, &mut fitness);
    assert_eq!(fitness, vec![1, 2, 3]);
    assert_eq!(positions, vec![vec![20], vec![30], vec![10]]);
}

#[test]
fn sort_under_maximization_puts_largest_first() {
    let mut positions = vec![vec![10, 0], vec![20, 0], vec![30, 0]];
    let mut fitness = vec![3, 1, 2];
    sort_by_fitness_with::<Maximization>(&mut positions, &mut fitness);
    assert_eq!(fitness, vec![3, 2, 1]);
    assert_eq!(positions, vec![vec![10, 0], vec![30, 0], vec![20, 0]]);
}

#[test]
fn sort_keeps_ties_in_input_order() {
    let mut positions = vec![vec![0], vec![1], vec![2], vec![3], vec![4]];
    let mut fitness = vec![2, 1, 2, 1, 2];
    sort_by_fitness_with::<Minimization>(&mut positions, &mut fitness);
    assert_eq!(fitness, vec![1, 1, 2, 2, 2]);
    assert_eq!(positions, vec![vec![1], vec![3], vec![0], vec![2], vec![4]]);

    let mut positions = vec![vec![0], vec![1], vec![2], vec![3], vec![4]];
    let mut fitness = vec![2, 1, 2, 1, 2];
    sort_by_fitness_with::<Maximization>(&mut positions, &mut fitness);
    assert_eq!(fitness, vec![2, 2, 2, 1, 1]);
    assert_eq!(positions, vec![vec![0], vec![2], vec![4], vec![1], vec![3]]);
}

#[test]
fn sort_is_a_permutation() {
    let mut positions: Vec<Vec<i64>> = (0..20).map(|i| vec![i, -i]).collect();
    let mut fitness: Vec<i64> = (0..20).map(|i| (i * 7919) % 13 - 6).collect();
    let before = fitness.clone();
    sort_by_fitness_with::<Minimization>(&mut positions, &mut fitness);
    assert_eq!(fitness.len(), 20);
    assert_eq!(positions.len(), 20);
    for k in 1..20 {
        assert!(fitness[k - 1] <= fitness[k]);
    }
    let mut seen = vec![false; 20];
    for k in 0..20 {
        let src = positions[k][0] as usize;
        assert!(!seen[src]);
        seen[src] = true;
        assert_eq!(positions[k], vec![src as i64, -(src as i64)]);
        assert_eq!(fitness[k], before[src]);
    }
}

#[test]
fn sort_of_nothing_is_nothing() {
    let mut positions: Vec<Vec<i64>> = vec![];
    let mut fitness: Vec<i64> = vec![];
    sort_by_fitness_with::<Minimization>(&mut positions, &mut fitness);
    assert!(positions.is_empty());
    assert!(fitness.is_empty());
}

#[test]
fn sorted_population_has_best_index_zero() {
    let mut positions = vec![vec![1], vec![2], vec![3], vec![4]];
    let mut fitness = vec![9, -4, 9, 0];
    sort_by_fitness_with::<Maximization>(&mut positions, &mut fitness);
    assert_eq!(best_index_with::<Maximization>(&fitness), 0);
    assert_eq!(positions[0], vec![1]);
}

#[test]
fn evaluate_all_keeps_input_order() {
    let positions = vec![vec![1, 2], vec![10, 20], vec![0, -7]];
    let fitness = evaluate_all(&SumOfPair, &positions).unwrap();
    assert_eq!(fitness, vec![3, 30, -7]);
    for i in 0..positions.len() {
        assert_eq!(Ok(fitness[i]), SumOfPair.decode(&positions[i]));
    }
}

#[test]
fn evaluate_all_of_nothing_is_nothing() {
    let positions: Vec<Vec<i64>> = vec![];
    assert_eq!(evaluate_all(&SumOfPair, &positions), Ok(vec![]));
}

#[test]
fn evaluate_all_stops_at_first_refused_position() {
    let positions = vec![vec![1, 2], vec![1, 2, 3], vec![-1, 0]];
    assert_eq!(
        evaluate_all(&SumOfPair, &positions),
        Err(DecoderError::InvalidDimension { expected: 2, received: 3 })
    );
    let positions = vec![vec![-1, 0], vec![1, 2, 3]];
    assert_eq!(evaluate_all(&SumOfPair, &positions), Err(DecoderError::UnknownError));
    let positions = vec![vec![1, 1], vec![101, 0]];
    assert_eq!(
        evaluate_all(&SumOfPair, &positions),
        Err(DecoderError::OutOfBounds { value: 101, upper_bound: 100 })
    );
}
