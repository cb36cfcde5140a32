use sfmp::cluster::{check_shape, nearest, AssignmentVector};
use sfmp::error::PipelineError;

fn key(distance: f32) -> u32 {
    distance.to_bits()
}

#[test]
fn shape_is_checked() {
    assert_eq!(check_shape(0, 2), Err(PipelineError::EmptyDataset));
    assert_eq!(check_shape(0, 0), Err(PipelineError::EmptyDataset));
    assert_eq!(check_shape(3, 0), Err(PipelineError::InvalidK));
    assert_eq!(check_shape(3, 4), Err(PipelineError::InvalidK));
    assert_eq!(check_shape(3, 3), Ok(()));
    assert_eq!(check_shape(3, 1), Ok(()));
}

#[test]
fn nearest_is_the_least_distance() {
    assert_eq!(nearest(&vec![5, 3, 9]), Some(1));
    assert_eq!(nearest(&vec![key(2.5), key(0.25), key(0.5)]), Some(1));
    assert_eq!(nearest(&vec![7]), Some(0));
    assert_eq!(nearest(&Vec::new()), None);
}

#[test]
fn ties_go_to_the_lowest_centroid() {
    assert_eq!(nearest(&vec![4, 2, 2, 8, 2]), Some(1));
    assert_eq!(nearest(&vec![0, 0]), Some(0));
}

#[test]
fn assignment_has_one_id_for_each_row() {
    let table = vec![vec![1, 5, 9], vec![5, 1, 9], vec![9, 5, 1], vec![2, 2, 3], vec![8, 7, 7]];
    let a = AssignmentVector::assign(&table, 3).unwrap();
    assert_eq!(a.len(), 5);
    assert_eq!(a.num_clusters(), 3);
    assert_eq!(a.ids(), &vec![0, 1, 2, 0, 1]);
    for i in 0..a.len() {
        assert!(a.get(i) < 3);
    }
}

#[test]
fn assignment_wants_a_distance_to_every_centroid() {
    assert!(AssignmentVector::assign(&vec![vec![1, 2], vec![1]], 2).is_none());
    assert!(AssignmentVector::assign(&vec![vec![1, 2]], 3).is_none());
    assert!(AssignmentVector::assign(&vec![vec![]], 0).is_none());
    assert!(AssignmentVector::assign(&Vec::new(), 0).is_none());
    assert_eq!(AssignmentVector::assign(&Vec::new(), 2).unwrap().len(), 0);
}

#[test]
fn assignment_step_is_repeatable() {
    let table = vec![vec![3, 3], vec![4, 1], vec![0, 6]];
    let first = AssignmentVector::assign(&table, 2).unwrap();
    let second = AssignmentVector::assign(&table, 2).unwrap();
    assert_eq!(first.ids(), second.ids());
    assert_eq!(first.ids(), &vec![0, 1, 0]);
}

#[test]
fn one_cluster_takes_every_image() {
    let table = vec![vec![9], vec![0], vec![17], vec![3]];
    let a = AssignmentVector::assign(&table, 1).unwrap();
    assert_eq!(a.ids(), &vec![0, 0, 0, 0]);
    let b = AssignmentVector::from_targets(vec![0, 0, 0], 1).unwrap();
    assert_eq!(b.ids(), &vec![0, 0, 0]);
    assert!(AssignmentVector::from_targets(vec![0, 1, 0], 1).is_none());
}

#[test]
fn as_many_clusters_as_distinct_rows() {
    let table = vec![vec![0, 4, 9], vec![4, 0, 1], vec![9, 1, 0]];
    let a = AssignmentVector::assign(&table, 3).unwrap();
    assert_eq!(a.ids(), &vec![0, 1, 2]);
}

#[test]
fn two_pairs_fall_into_two_clusters() {
    // rows 0 and 1 lie near centroid 1, rows 2 and 3 near centroid 0
    let table = vec![
        vec![key(9.5), key(0.1)],
        vec![key(9.0), key(0.2)],
        vec![key(0.3), key(8.5)],
        vec![key(0.1), key(9.9)],
    ];
    let a = AssignmentVector::assign(&table, 2).unwrap();
    assert_eq!(a.get(0), a.get(1));
    assert_eq!(a.get(2), a.get(3));
    assert_ne!(a.get(0), a.get(2));
}

#[test]
fn targets_are_taken_when_in_range() {
    let a = AssignmentVector::from_targets(vec![1, 0, 2, 2], 3).unwrap();
    assert_eq!(a.len(), 4);
    assert_eq!(a.num_clusters(), 3);
    assert_eq!(a.ids(), &vec![1, 0, 2, 2]);
    assert!(AssignmentVector::from_targets(vec![1, 0, 3], 3).is_none());
    assert!(AssignmentVector::from_targets(Vec::new(), 0).is_none());
    assert_eq!(AssignmentVector::from_targets(Vec::new(), 1).unwrap().len(), 0);
}
