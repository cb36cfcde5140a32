use rand_xoshiro::rand_core::{RngCore, SeedableRng};
use rand_xoshiro::Xoshiro256Plus;
use sfmp::error::PipelineError;
use sfmp::seeding::{draw_many, initial_rows, select_rows};

#[test]
fn draws_are_those_of_the_generator() {
    let mut rng = Xoshiro256Plus::seed_from_u64(0);
    let expected = vec![rng.next_u64(), rng.next_u64(), rng.next_u64(), rng.next_u64()];
    assert_eq!(draw_many(0, 4), expected);
    assert_ne!(expected[0], 0);
    assert_ne!(expected[0], expected[1]);

    let mut other = Xoshiro256Plus::seed_from_u64(41);
    assert_eq!(draw_many(41, 2), vec![other.next_u64(), other.next_u64()]);
    assert_eq!(draw_many(41, 0), Vec::<u64>::new());
}

#[test]
fn draws_follow_the_seed() {
    assert_eq!(draw_many(7, 5), draw_many(7, 5));
    assert_ne!(draw_many(7, 5), draw_many(8, 5));
    assert_eq!(draw_many(7, 5)[..3], draw_many(7, 3)[..]);
}

#[test]
fn rows_are_picked_by_the_draws() {
    assert_eq!(select_rows(5, &vec![0, 0, 0]), Some(vec![0, 1, 2]));
    assert_eq!(select_rows(5, &vec![7, 2, 9]), Some(vec![2, 3, 0]));
    assert_eq!(select_rows(3, &vec![u64::MAX, u64::MAX, u64::MAX]), Some(vec![0, 2, 1]));
    assert_eq!(select_rows(4, &vec![3]), Some(vec![3]));
    assert_eq!(select_rows(0, &Vec::new()), Some(Vec::new()));
    assert_eq!(select_rows(3, &Vec::new()), Some(Vec::new()));
}

#[test]
fn no_more_rows_than_there_are() {
    assert_eq!(select_rows(2, &vec![1, 2, 3]), None);
    assert_eq!(select_rows(0, &vec![1]), None);
}

#[test]
fn first_centroids_follow_the_seed() {
    let mut rng = Xoshiro256Plus::seed_from_u64(0);
    let draws = vec![rng.next_u64(), rng.next_u64(), rng.next_u64()];
    let expected = select_rows(10, &draws).unwrap();
    assert_eq!(initial_rows(10, 3, 0), Ok(expected));
    assert_eq!(initial_rows(10, 3, 0), initial_rows(10, 3, 0));
}

#[test]
fn first_centroids_are_different_rows() {
    let rows = initial_rows(6, 6, 9).unwrap();
    let mut sorted = rows.clone();
    sorted.sort();
    assert_eq!(sorted, vec![0, 1, 2, 3, 4, 5]);

    let few = initial_rows(100, 4, 3).unwrap();
    assert_eq!(few.len(), 4);
    for (i, a) in few.iter().enumerate() {
        assert!(*a < 100);
        for b in &few[i + 1..] {
            assert_ne!(a, b);
        }
    }
}

#[test]
fn first_centroids_want_a_fitting_shape() {
    assert_eq!(initial_rows(0, 1, 0), Err(PipelineError::EmptyDataset));
    assert_eq!(initial_rows(3, 0, 0), Err(PipelineError::InvalidK));
    assert_eq!(initial_rows(3, 4, 0), Err(PipelineError::InvalidK));
    assert_eq!(initial_rows(1, 1, 0), Ok(vec![0]));
}
