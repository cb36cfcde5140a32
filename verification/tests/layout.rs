use sfmp::error::PipelineError;
use sfmp::matrix::FeatureMatrix;
use sfmp::tensor::to_channel_major;

#[test]
fn channel_major_of_two_by_two() {
    // pixels row by row, each as (r, g, b)
    let pixels: Vec<u8> = vec![1, 2, 3, 4, 5, 6, 7, 8, 9, 10, 11, 12];
    let tensor = to_channel_major(&pixels, 2).unwrap();
    assert_eq!(tensor, vec![1, 4, 7, 10, 2, 5, 8, 11, 3, 6, 9, 12]);
}

#[test]
fn channel_major_of_one_pixel() {
    assert_eq!(to_channel_major(&vec![9, 8, 7], 1), Some(vec![9, 8, 7]));
}

#[test]
fn channel_major_of_nothing() {
    assert_eq!(to_channel_major(&Vec::new(), 0), Some(Vec::new()));
}

#[test]
fn channel_major_wants_three_bytes_a_pixel() {
    assert_eq!(to_channel_major(&vec![1, 2, 3, 4], 1), None);
    assert_eq!(to_channel_major(&vec![1, 2, 3], 2), None);
    assert_eq!(to_channel_major(&Vec::new(), usize::MAX), None);
    assert_eq!(to_channel_major(&Vec::new(), 1 << (usize::BITS / 2)), None);
}

#[test]
fn channel_major_is_the_same_each_time() {
    let pixels: Vec<u8> = (0..27).collect();
    let first = to_channel_major(&pixels, 3).unwrap();
    let second = to_channel_major(&pixels, 3).unwrap();
    assert_eq!(first, second);
    assert_eq!(first.len(), 27);
    // channel 1, row 2, column 1
    assert_eq!(first[9 + 2 * 3 + 1], pixels[(2 * 3 + 1) * 3 + 1]);
}

#[test]
fn matrix_rows_follow_the_images() {
    let mut m = FeatureMatrix::new(3);
    assert_eq!(m.n_rows(), 0);
    assert_eq!(m.feature_dim(), 3);
    assert_eq!(m.push_row(vec![1, 2, 3]), Ok(()));
    assert_eq!(m.push_row(vec![4, 5, 6]), Ok(()));
    assert_eq!(m.n_rows(), 2);
    assert_eq!(m.row(0), &vec![1, 2, 3]);
    assert_eq!(m.row(1), &vec![4, 5, 6]);
}

#[test]
fn matrix_refuses_a_vector_of_another_length() {
    let mut m = FeatureMatrix::new(3);
    assert_eq!(m.push_row(vec![1, 2, 3]), Ok(()));
    assert_eq!(m.push_row(vec![1, 2]), Err(PipelineError::FeatureDimMismatch));
    assert_eq!(m.push_row(vec![1, 2, 3, 4]), Err(PipelineError::FeatureDimMismatch));
    assert_eq!(m.n_rows(), 1);
    assert_eq!(m.row(0), &vec![1, 2, 3]);
}

#[test]
fn matrix_is_built_whole_or_not_at_all() {
    let m = FeatureMatrix::build(vec![vec![7, 8], vec![9, 10], vec![11, 12]], 2);
    match m {
        Ok(m) => {
            assert_eq!(m.n_rows(), 3);
            assert_eq!(m.feature_dim(), 2);
            assert_eq!(m.row(2), &vec![11, 12]);
        }
        Err(e) => panic!("{:?}", e),
    }
    let bad = FeatureMatrix::build(vec![vec![7, 8], vec![9], vec![11, 12]], 2);
    assert!(matches!(bad, Err(PipelineError::FeatureDimMismatch)));
    let none = FeatureMatrix::build(Vec::new(), 2);
    assert!(matches!(none, Ok(_)));
}
