use optim_core::bounds::{Bounds, BoundsError, Policy};
use rand::rngs::StdRng;
use rand::SeedableRng;

#[test]
fn uniform_reports_dimension_and_limits() {
    let b = Bounds::uniform(-5, 5, 3).unwrap();
    assert_eq!(b.dim(), 3);
    for i in 0..3 {
        assert_eq!(b.lo_at(i), -5);
        assert_eq!(b.hi_at(i), 5);
    }
}

#[test]
fn uniform_accepts_a_single_point_interval() {
    let b = Bounds::uniform(7, 7, 1).unwrap();
    assert_eq!(b.dim(), 1);
    assert_eq!(b.lo_at(0), 7);
    assert_eq!(b.hi_at(0), 7);
    assert_eq!(b.span_at(0), 0);
}

#[test]
fn uniform_rejects_inverted_interval() {
    let r = Bounds::uniform(5, 1, 3);
    assert_eq!(r.unwrap_err(), BoundsError::InvalidInterval { i: 0, lo: 5, hi: 1 });
}

#[test]
fn uniform_rejects_zero_dimension() {
    let r = Bounds::uniform(0, 1, 0);
    assert_eq!(r.unwrap_err(), BoundsError::InvalidDim { dim: 0 });
}

#[test]
fn uniform_reports_zero_dimension_before_inverted_interval() {
    let r = Bounds::uniform(5, 1, 0);
    assert_eq!(r.unwrap_err(), BoundsError::InvalidDim { dim: 0 });
}

#[test]
fn per_dim_rejects_empty_limits() {
    let r = Bounds::per_dim(vec![], vec![]);
    assert_eq!(r.unwrap_err(), BoundsError::InvalidDim { dim: 0 });
}

#[test]
fn per_dim_rejects_unequal_lengths() {
    let r = Bounds::per_dim(vec![1, 2], vec![1, 2, 3]);
    assert_eq!(r.unwrap_err(), BoundsError::DimMismatch { lo: 2, hi: 3 });
}

#[test]
fn per_dim_reports_length_mismatch_before_anything_else() {
    let r = Bounds::per_dim(vec![], vec![1]);
    assert_eq!(r.unwrap_err(), BoundsError::DimMismatch { lo: 0, hi: 1 });
    let r = Bounds::per_dim(vec![9, 9], vec![1]);
    assert_eq!(r.unwrap_err(), BoundsError::DimMismatch { lo: 2, hi: 1 });
}

#[test]
fn per_dim_reports_first_inverted_interval() {
    let r = Bounds::per_dim(vec![0, 4, 9], vec![1, 3, 2]);
    assert_eq!(r.unwrap_err(), BoundsError::InvalidInterval { i: 1, lo: 4, hi: 3 });
}

#[test]
fn per_dim_keeps_each_interval() {
    let b = Bounds::per_dim(vec![-1, 0, 10], vec![1, 0, 20]).unwrap();
    assert_eq!(b.dim(), 3);
    assert_eq!((b.lo_at(0), b.hi_at(0), b.span_at(0)), (-1, 1, 2));
    assert_eq!((b.lo_at(1), b.hi_at(1), b.span_at(1)), (0, 0, 0));
    assert_eq!((b.lo_at(2), b.hi_at(2), b.span_at(2)), (10, 20, 10));
}

#[test]
fn span_is_upper_minus_lower() {
    let b = Bounds::uniform(-3, 7, 2).unwrap();
    assert_eq!(b.span_at(0), 10);
    assert_eq!(b.span_at(1), 10);
}

#[test]
fn span_of_the_widest_interval_fits() {
    let b = Bounds::uniform(i64::MIN, i64::MAX, 1).unwrap();
    assert_eq!(b.span_at(0), u64::MAX);
}

#[test]
fn project_clamps_to_nearest_limit() {
    let b = Bounds::uniform(-2, 2, 4).unwrap();
    let mut x = vec![-10, -2, 1, 50];
    b.project_slice(&mut x);
    assert_eq!(x, vec![-2, -2, 1, 2]);
}

#[test]
fn project_clamps_each_coordinate_to_its_own_interval() {
    let b = Bounds::per_dim(vec![0, 10, -5], vec![1, 20, -5]).unwrap();
    let mut x = vec![5, 5, 5];
    b.project_slice(&mut x);
    assert_eq!(x, vec![1, 10, -5]);
}

#[test]
fn project_twice_equals_project_once() {
    let b = Bounds::per_dim(vec![0, 10, -5], vec![1, 20, 5]).unwrap();
    let mut once = vec![-7, 15, 100];
    b.project_slice(&mut once);
    let mut twice = once.clone();
    b.project_slice(&mut twice);
    assert_eq!(once, vec![0, 15, 5]);
    assert_eq!(twice, once);
}

#[test]
fn project_leaves_feasible_vector_unchanged() {
    let b = Bounds::uniform(-2, 2, 3).unwrap();
    let mut x = vec![-2, 0, 2];
    b.project_slice(&mut x);
    assert_eq!(x, vec![-2, 0, 2]);
}

#[test]
fn with_policy_keeps_the_search_space() {
    let b = Bounds::per_dim(vec![0, 10], vec![1, 20]).unwrap().with_policy(Policy::Clamp);
    assert_eq!(b.dim(), 2);
    assert_eq!((b.lo_at(0), b.hi_at(0)), (0, 1));
    assert_eq!((b.lo_at(1), b.hi_at(1)), (10, 20));
    let mut x = vec![3, 3];
    b.project_slice(&mut x);
    assert_eq!(x, vec![1, 10]);
}

#[test]
fn default_policy_is_clamp() {
    assert_eq!(Policy::default(), Policy::Clamp);
}

#[test]
fn clone_stands_for_the_same_space() {
    let b = Bounds::per_dim(vec![0, 10], vec![1, 20]).unwrap();
    let c = b.clone();
    assert_eq!(c.dim(), 2);
    assert_eq!((c.lo_at(0), c.hi_at(0)), (0, 1));
    assert_eq!((c.lo_at(1), c.hi_at(1)), (10, 20));
    let u = Bounds::uniform(3, 4, 5).unwrap().clone();
    assert_eq!((u.dim(), u.lo_at(4), u.hi_at(4)), (5, 3, 4));
}

#[test]
fn random_vector_is_feasible_uniform() {
    let b = Bounds::uniform(-100, 100, 16).unwrap();
    let mut rng = StdRng::seed_from_u64(7);
    for _ in 0..50 {
        let v = b.gen_random_vec(&mut rng);
        assert_eq!(v.len(), 16);
        for x in &v {
            assert!(-100 <= *x && *x <= 100);
        }
    }
}

#[test]
fn random_vector_is_feasible_per_dimension() {
    let b = Bounds::per_dim(vec![0, 10, -5, 3], vec![1, 20, 5, 3]).unwrap();
    let mut rng = StdRng::seed_from_u64(11);
    for _ in 0..50 {
        let v = b.gen_random_vec(&mut rng);
        assert_eq!(v.len(), 4);
        for i in 0..4 {
            assert!(b.lo_at(i) <= v[i] && v[i] <= b.hi_at(i));
        }
        assert_eq!(v[3], 3);
    }
}

#[test]
fn random_vector_over_the_widest_interval() {
    let b = Bounds::uniform(i64::MIN, i64::MAX, 8).unwrap();
    let mut rng = StdRng::seed_from_u64(3);
    let v = b.gen_random_vec(&mut rng);
    assert_eq!(v.len(), 8);
}

#[test]
fn random_vector_draws_vary_inside_the_interval() {
    let b = Bounds::uniform(0, 1_000_000, 64).unwrap();
    let mut rng = StdRng::seed_from_u64(5);
    let v = b.gen_random_vec(&mut rng);
    assert!(v.iter().any(|x| *x != 0));
    assert!(v.iter().any(|x| *x != 1_000_000));
    assert!(v.iter().any(|x| *x != v[0]));
}

#[test]
fn random_vector_is_reproducible_from_the_seed() {
    let b = Bounds::uniform(-1000, 1000, 10).unwrap();
    let mut rng_a = StdRng::seed_from_u64(42);
    let mut rng_b = StdRng::seed_from_u64(42);
    for _ in 0..5 {
        assert_eq!(b.gen_random_vec(&mut rng_a), b.gen_random_vec(&mut rng_b));
    }
}
