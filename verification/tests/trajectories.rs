use datagen::base::Metres2D;
use datagen::error::ConfigurationError;
use datagen::trajectory::{is_valid_sparse, DenseTrajectory};

fn sample_points() -> Vec<(i64, i64)> {
    vec![
        // full speed for three seconds
        (0, 0),
        (3_000_000, 1_500_000),
        // two seconds at rest
        (5_000_000, 1_500_000),
        // a quarter of a metre per second for two seconds
        (7_000_000, 2_000_000),
        (11_000_000, 2_000_000),
    ]
}

#[test]
fn a_sparse_trajectory_starts_at_zero_and_increases() {
    assert!(is_valid_sparse(&sample_points()));
    assert!(is_valid_sparse(&vec![(0i64, 5i64)]));
    assert!(!is_valid_sparse::<i64>(&vec![]));
    assert!(!is_valid_sparse(&vec![(1i64, 0i64), (2, 0)]));
    assert!(!is_valid_sparse(&vec![(0i64, 0i64), (2, 0), (2, 1)]));
    assert!(!is_valid_sparse(&vec![(0i64, 0i64), (2, 0), (1, 1)]));
    assert!(!is_valid_sparse(&vec![(-1i64, 0i64), (0, 0)]));
}

#[test]
fn the_dense_length_is_the_span_over_the_step_rounded_up() {
    let dense = DenseTrajectory::from_points(100_000, sample_points()).unwrap();
    assert_eq!(dense.len(), 110);
    assert_eq!(dense.resolution, 100_000);
    let coarse = DenseTrajectory::from_points(3_000_000, sample_points()).unwrap();
    assert_eq!(coarse.len(), 4);
    let exact = DenseTrajectory::from_points(11_000_000, sample_points()).unwrap();
    assert_eq!(exact.len(), 1);
    let wide = DenseTrajectory::from_points(12_000_000, sample_points()).unwrap();
    assert_eq!(wide.len(), 1);
}

#[test]
fn dense_samples_interpolate_between_the_bracketing_points() {
    let dense = DenseTrajectory::from_points(100_000, sample_points()).unwrap();
    assert_eq!(dense.sample_at(0), Some(0));
    assert_eq!(dense.sample_at(1), Some(50_000));
    assert_eq!(dense.sample_at(7), Some(350_000));
    assert_eq!(dense.sample_at(10), Some(500_000));
    assert_eq!(dense.sample_at(29), Some(1_450_000));
    assert_eq!(dense.sample_at(30), Some(1_500_000));
    assert_eq!(dense.sample_at(45), Some(1_500_000));
    assert_eq!(dense.sample_at(50), Some(1_500_000));
    assert_eq!(dense.sample_at(60), Some(1_750_000));
    assert_eq!(dense.sample_at(70), Some(2_000_000));
    assert_eq!(dense.sample_at(109), Some(2_000_000));
}

#[test]
fn sampling_past_the_end_gives_nothing() {
    let dense = DenseTrajectory::from_points(100_000, sample_points()).unwrap();
    assert_eq!(dense.sample_at(110), None);
    assert_eq!(dense.sample_at(usize::MAX), None);
}

#[test]
fn interpolation_rounds_down() {
    let dense = DenseTrajectory::from_points(1, vec![(0i64, 0i64), (3, 10)]).unwrap();
    assert_eq!(dense.samples, vec![0, 3, 6]);
    let falling = DenseTrajectory::from_points(1, vec![(0i64, 0i64), (3, -10)]).unwrap();
    assert_eq!(falling.samples, vec![0, -4, -7]);
}

#[test]
fn planar_trajectories_interpolate_each_component() {
    let points = vec![
        (0i64, Metres2D::new(0, 0)),
        (2_000_000, Metres2D::new(1_000_000, -2_000_000)),
        (4_000_000, Metres2D::new(1_000_000, 0)),
    ];
    let dense = DenseTrajectory::from_points(500_000, points).unwrap();
    assert_eq!(dense.len(), 8);
    assert_eq!(dense.sample_at(0), Some(Metres2D::new(0, 0)));
    assert_eq!(dense.sample_at(1), Some(Metres2D::new(250_000, -500_000)));
    assert_eq!(dense.sample_at(4), Some(Metres2D::new(1_000_000, -2_000_000)));
    assert_eq!(dense.sample_at(5), Some(Metres2D::new(1_000_000, -1_500_000)));
    assert_eq!(dense.sample_at(7), Some(Metres2D::new(1_000_000, -500_000)));
}

#[test]
fn a_single_point_gives_an_empty_dense_trajectory() {
    let dense = DenseTrajectory::from_points(100_000, vec![(0i64, 42i64)]).unwrap();
    assert_eq!(dense.len(), 0);
    assert_eq!(dense.sample_at(0), None);
}

#[test]
fn a_resolution_that_is_not_positive_is_refused() {
    assert_eq!(
        DenseTrajectory::from_points(0, sample_points()).err(),
        Some(ConfigurationError::NonPositiveResolution)
    );
    assert_eq!(
        DenseTrajectory::from_points(-100_000, sample_points()).err(),
        Some(ConfigurationError::NonPositiveResolution)
    );
    // the resolution is looked at first
    assert_eq!(
        DenseTrajectory::<i64>::from_points(0, vec![]).err(),
        Some(ConfigurationError::NonPositiveResolution)
    );
}

#[test]
fn a_malformed_trajectory_is_refused() {
    assert_eq!(
        DenseTrajectory::<i64>::from_points(100_000, vec![]).err(),
        Some(ConfigurationError::MalformedTrajectory)
    );
    assert_eq!(
        DenseTrajectory::from_points(100_000, vec![(1i64, 0i64), (2, 0)]).err(),
        Some(ConfigurationError::MalformedTrajectory)
    );
    assert_eq!(
        DenseTrajectory::from_points(100_000, vec![(0i64, 0i64), (5, 0), (5, 1)]).err(),
        Some(ConfigurationError::MalformedTrajectory)
    );
}

#[test]
fn a_trajectory_whose_last_step_cannot_be_timed_is_refused() {
    // the samples would end after the greatest time that can be written down
    assert_eq!(
        DenseTrajectory::from_points(i64::MAX - 1, vec![(0i64, 0i64), (i64::MAX, 1)]).err(),
        Some(ConfigurationError::TooManySamples)
    );
    let fits = DenseTrajectory::from_points(i64::MAX, vec![(0i64, 0i64), (i64::MAX, 1)]).unwrap();
    assert_eq!(fits.samples, vec![0]);
}

#[test]
fn a_dense_trajectory_describes_itself_as_points() {
    let dense = DenseTrajectory::from_points(3_000_000, sample_points()).unwrap();
    assert_eq!(dense.samples, vec![0, 1_500_000, 1_750_000, 2_000_000]);
    assert_eq!(
        dense.to_points(),
        vec![
            (0, 0),
            (3_000_000, 1_500_000),
            (6_000_000, 1_750_000),
            (9_000_000, 2_000_000),
            (12_000_000, 2_000_000)
        ]
    );
    let empty = DenseTrajectory::from_points(7, vec![(0i64, 42i64)]).unwrap();
    assert_eq!(empty.to_points(), vec![(0, 0)]);
}

#[test]
fn resampling_at_the_same_resolution_reproduces_the_trajectory() {
    let dense = DenseTrajectory::from_points(100_000, sample_points()).unwrap();
    let again = dense.resampled().unwrap();
    assert_eq!(again.resolution, dense.resolution);
    assert_eq!(again.samples, dense.samples);
    let twice = DenseTrajectory::from_points(again.resolution, again.to_points()).unwrap();
    assert_eq!(twice.samples, dense.samples);
}

#[test]
fn resampling_reproduces_planar_and_empty_trajectories() {
    let points = vec![
        (0i64, Metres2D::new(0, 0)),
        (7, Metres2D::new(1_000, -2_000)),
        (19, Metres2D::new(-5, 3)),
    ];
    let dense = DenseTrajectory::from_points(3, points).unwrap();
    assert_eq!(dense.len(), 7);
    assert_eq!(dense.resampled().unwrap().samples, dense.samples);
    let empty = DenseTrajectory::from_points(3, vec![(0i64, Metres2D::new(1, 1))]).unwrap();
    let again = empty.resampled().unwrap();
    assert_eq!(again.len(), 0);
    assert_eq!(again.resolution, 3);
}
