use datagen::base::Metres2D;
use datagen::error::ConfigurationError;
use datagen::generator::{
    draw_duration, draw_speed, generate_1d_trajectory_points_simple, next_waypoint, segment_speed,
    GeneratorAction, GeneratorParams, PlanarGenerator, SegmentDraw,
};
use datagen::random::{deviate_from_draws, unit_deviate, RandomSource, SeededSource};
use datagen::trajectory::{is_valid_sparse, DenseTrajectory};

/// Hands out the listed values, each limited to the range that is asked for.
struct Scripted {
    values: Vec<i64>,
    next: usize,
}

impl Scripted {
    fn new(values: Vec<i64>) -> Scripted {
        Scripted { values, next: 0 }
    }
}

impl RandomSource for Scripted {
    fn uniform(&mut self, low: i64, high: i64) -> i64 {
        let value = self.values[self.next];
        self.next += 1;
        value.clamp(low, high - 1)
    }
}

/// Twelve draws that make the deviate `deviate`, given as fixed point.
fn draws_for(deviate: i64) -> Vec<i64> {
    let mut draws = vec![500_000; 12];
    draws[0] += deviate;
    draws
}

#[test]
fn a_deviate_is_the_centred_sum_of_twelve_draws() {
    assert_eq!(deviate_from_draws(&[500_000; 12]), 0);
    assert_eq!(deviate_from_draws(&[0; 12]), -6_000_000);
    assert_eq!(deviate_from_draws(&[999_999; 12]), 5_999_988);
    let mut draws = [500_000; 12];
    draws[3] = 750_000;
    draws[7] = 100_000;
    assert_eq!(deviate_from_draws(&draws), -150_000);
}

#[test]
fn a_drawn_deviate_uses_twelve_draws() {
    let mut source = Scripted::new(draws_for(100_000));
    assert_eq!(unit_deviate(&mut source), 100_000);
    assert_eq!(source.next, 12);
}

#[test]
fn seeded_draws_lie_in_the_range_and_vary() {
    let mut source = SeededSource::new(7);
    let mut seen_other_than_low = false;
    let mut first = None;
    let mut varied = false;
    for _ in 0..200 {
        let draw = source.uniform(-5, 1_000_000);
        assert!(-5 <= draw && draw < 1_000_000);
        if draw != -5 {
            seen_other_than_low = true;
        }
        match first {
            None => first = Some(draw),
            Some(value) => {
                if value != draw {
                    varied = true;
                }
            }
        }
    }
    assert!(seen_other_than_low);
    assert!(varied);
    for _ in 0..50 {
        assert_eq!(source.uniform(3, 4), 3);
    }
}

#[test]
fn the_same_seed_gives_the_same_draws() {
    let mut a = SeededSource::new(2024);
    let mut b = SeededSource::new(2024);
    let mut c = SeededSource::new(2025);
    let mut differs = false;
    for _ in 0..100 {
        let x = a.uniform(0, 1_000_000_000);
        let y = b.uniform(0, 1_000_000_000);
        let z = c.uniform(0, 1_000_000_000);
        assert_eq!(x, y);
        if x != z {
            differs = true;
        }
    }
    assert!(differs);
}

#[test]
fn seeded_deviates_stay_within_six_standard_deviations() {
    let mut source = SeededSource::new(11);
    let mut nonzero = false;
    for _ in 0..200 {
        let deviate = unit_deviate(&mut source);
        assert!(-6_000_000 <= deviate && deviate < 6_000_000);
        if deviate != 0 {
            nonzero = true;
        }
    }
    assert!(nonzero);
}

#[test]
fn the_speed_of_a_segment_is_the_nominal_speed_with_scaled_noise() {
    // noise of a tenth of half a metre per second, times a deviate of 0.1
    assert_eq!(segment_speed(500_000, 100_000, -500_000, -200_000, 100_000), -195_000);
    assert_eq!(segment_speed(500_000, 100_000, -500_000, 300_000, 0), 300_000);
    assert_eq!(segment_speed(500_000, 100_000, -500_000, 300_000, -2_000_000), 200_000);
    // no noise at all
    assert_eq!(segment_speed(500_000, 0, 0, 123_456, 5_999_999), 123_456);
}

#[test]
fn the_speed_of_a_segment_is_limited() {
    assert_eq!(segment_speed(500_000, 100_000, -500_000, 499_000, 1_000_000), 500_000);
    assert_eq!(segment_speed(500_000, 100_000, -500_000, -499_000, -1_000_000), -500_000);
    assert_eq!(segment_speed(500_000, 100_000, 0, 1_000, -1_000_000), 0);
}

#[test]
fn the_next_waypoint_is_reached_at_the_given_speed() {
    assert_eq!(next_waypoint((0i64, 0i64), 2_000_000, 300_000, 1_000_000), (2_000_000, 600_000));
    assert_eq!(
        next_waypoint((2_000_000i64, 600_000i64), 1_000_000, -195_000, 1_000_000),
        (3_000_000, 405_000)
    );
    // along the second axis, then along a diagonal of length one
    assert_eq!(
        next_waypoint((0i64, Metres2D::new(5, 5)), 2_000_000, 500_000, Metres2D::new(0, 1_000_000)),
        (2_000_000, Metres2D::new(5, 1_000_005))
    );
    assert_eq!(
        next_waypoint(
            (1i64, Metres2D::new(0, 0)),
            1_000_000,
            1_000_000,
            Metres2D::new(707_107, -707_107)
        ),
        (1_000_001, Metres2D::new(707_107, -707_107))
    );
}

#[test]
fn drawn_durations_and_speeds_stay_in_range() {
    let mut source = SeededSource::new(5);
    for _ in 0..200 {
        let duration = draw_duration(&mut source, 2_000_000);
        assert!(1 <= duration && duration <= 2_000_000);
        let speed = draw_speed(&mut source, 500_000, 100_000, -500_000);
        assert!(-500_000 <= speed && speed <= 500_000);
        let forwards = draw_speed(&mut source, 500_000, 100_000, 0);
        assert!(0 <= forwards && forwards <= 500_000);
    }
    assert_eq!(draw_duration(&mut source, 1), 1);
    assert_eq!(draw_speed(&mut source, 0, 100_000, 0), 0);
}

#[test]
fn a_scripted_line_trajectory_is_exact() {
    let mut script = vec![1_999_999, 300_000];
    script.extend(draws_for(0));
    script.extend(vec![999_999, -200_000]);
    script.extend(draws_for(100_000));
    let mut source = Scripted::new(script);
    let points =
        generate_1d_trajectory_points_simple(500_000, 3_000_000, 2_000_000, 100_000, &mut source)
            .unwrap();
    assert_eq!(points, vec![(0, 0), (2_000_000, 600_000), (3_000_000, 405_000)]);
    assert_eq!(source.next, 28);
}

#[test]
fn the_last_segment_is_not_cut_short() {
    let mut script = vec![1_999_999, 400_000];
    script.extend(draws_for(0));
    let mut source = Scripted::new(script);
    let points =
        generate_1d_trajectory_points_simple(500_000, 1, 2_000_000, 100_000, &mut source).unwrap();
    assert_eq!(points, vec![(0, 0), (2_000_000, 800_000)]);
}

#[test]
fn no_duration_asked_for_gives_the_origin_alone() {
    let mut source = Scripted::new(vec![]);
    let points =
        generate_1d_trajectory_points_simple(500_000, 0, 2_000_000, 100_000, &mut source).unwrap();
    assert_eq!(points, vec![(0, 0)]);
}

#[test]
fn generated_times_start_at_zero_and_increase() {
    for seed in 0..20 {
        let mut source = SeededSource::new(seed);
        let points = generate_1d_trajectory_points_simple(
            500_000, 10_000_000, 2_000_000, 100_000, &mut source,
        )
        .unwrap();
        assert!(is_valid_sparse(&points));
        assert_eq!(points[0], (0, 0));
        for pair in points.windows(2) {
            let duration = pair[1].0 - pair[0].0;
            assert!(1 <= duration && duration <= 2_000_000);
            // never faster than the greatest speed, up to one step of rounding
            let moved = (pair[1].1 - pair[0].1).abs();
            assert!(moved <= duration / 2 + 1);
        }
        let count = points.len();
        assert!(points[count - 1].0 >= 10_000_000);
        assert!(points[count - 2].0 < 10_000_000);
    }
}

#[test]
fn a_generated_trajectory_resamples_to_its_own_span() {
    let mut source = SeededSource::new(42);
    let points =
        generate_1d_trajectory_points_simple(500_000, 10_000_000, 2_000_000, 100_000, &mut source)
            .unwrap();
    let last = points[points.len() - 1].0;
    assert!(last >= 10_000_000);
    let dense = DenseTrajectory::from_points(100_000, points).unwrap();
    assert_eq!(dense.len() as i64, (last + 99_999) / 100_000);
    assert!(dense.len() >= 100);
}

#[test]
fn generator_parameters_out_of_range_are_refused() {
    let mut source = Scripted::new(vec![]);
    let refused = Some(ConfigurationError::InvalidParameter);
    assert_eq!(
        generate_1d_trajectory_points_simple(-1, 10, 2, 1, &mut source).err(),
        refused
    );
    assert_eq!(
        generate_1d_trajectory_points_simple(1, -10, 2, 1, &mut source).err(),
        refused
    );
    assert_eq!(generate_1d_trajectory_points_simple(1, 10, 0, 1, &mut source).err(), refused);
    assert_eq!(generate_1d_trajectory_points_simple(1, 10, 2, -1, &mut source).err(), refused);
    assert_eq!(
        generate_1d_trajectory_points_simple(1, i64::MAX, 1, 0, &mut source).err(),
        refused
    );
    assert!(PlanarGenerator::new(-1, 10, 2, 1, 1).is_err());
    assert!(PlanarGenerator::new(1, 10, 2, 1, -1).is_err());
    assert!(PlanarGenerator::new(1, 10, 2, 1, i64::MAX).is_err());
    assert_eq!(PlanarGenerator::new(1, 10, 0, 1, 1).err(), refused);
}

#[test]
fn a_planar_generator_hands_out_draws_and_takes_directions() {
    let mut generator = PlanarGenerator::new(500_000, 3_000_000, 2_000_000, 100_000, 1_000_000).unwrap();
    assert!(!generator.is_complete());
    let mut script = vec![1_999_999, 400_000];
    script.extend(draws_for(0));
    script.push(250_000);
    let mut source = Scripted::new(script);
    let first = SegmentDraw { duration: 2_000_000, speed: 400_000, heading: 250_000 };
    assert_eq!(generator.next_action(&mut source), GeneratorAction::Extend(first));
    assert!(generator.extend(first, Metres2D::new(1_000_000, 0)));
    assert_eq!(generator.heading, 250_000);
    assert_eq!(
        generator.points,
        vec![(0, Metres2D::new(0, 0)), (2_000_000, Metres2D::new(800_000, 0))]
    );
    let second = SegmentDraw { duration: 1_000_000, speed: 500_000, heading: -750_000 };
    assert!(generator.extend(second, Metres2D::new(0, -1_000_000)));
    assert!(generator.is_complete());
    let mut unused = Scripted::new(vec![]);
    assert_eq!(generator.next_action(&mut unused), GeneratorAction::Finished);
    assert_eq!(
        generator.into_points(),
        vec![
            (0, Metres2D::new(0, 0)),
            (2_000_000, Metres2D::new(800_000, 0)),
            (3_000_000, Metres2D::new(800_000, -500_000))
        ]
    );
}

#[test]
fn a_planar_generator_ignores_what_it_cannot_have_proposed() {
    let mut generator = PlanarGenerator::new(500_000, 1_000_000, 2_000_000, 100_000, 1_000_000).unwrap();
    let east = Metres2D::new(1_000_000, 0);
    let too_long = SegmentDraw { duration: 2_000_001, speed: 100_000, heading: 0 };
    let too_short = SegmentDraw { duration: 0, speed: 100_000, heading: 0 };
    let too_fast = SegmentDraw { duration: 1_000_000, speed: 500_001, heading: 0 };
    let backwards = SegmentDraw { duration: 1_000_000, speed: -1, heading: 0 };
    assert!(!generator.extend(too_long, east));
    assert!(!generator.extend(too_short, east));
    assert!(!generator.extend(too_fast, east));
    assert!(!generator.extend(backwards, east));
    assert_eq!(generator.points, vec![(0, Metres2D::new(0, 0))]);
    let fine = SegmentDraw { duration: 1_000_000, speed: 500_000, heading: 5 };
    assert!(generator.extend(fine, east));
    // the trajectory is long enough now
    assert!(!generator.extend(fine, east));
    assert_eq!(generator.points.len(), 2);
}

#[test]
fn planar_headings_turn_by_no_more_than_the_turnability() {
    let mut generator = PlanarGenerator::new(500_000, 60_000_000, 2_000_000, 100_000, 300_000).unwrap();
    let mut source = SeededSource::new(3);
    let mut steps = 0;
    loop {
        match generator.next_action(&mut source) {
            GeneratorAction::Finished => break,
            GeneratorAction::Extend(draw) => {
                assert!((draw.heading - generator.heading).abs() <= 300_000);
                assert!(1 <= draw.duration && draw.duration <= 2_000_000);
                assert!(0 <= draw.speed && draw.speed <= 500_000);
                assert!(generator.extend(draw, Metres2D::new(600_000, 800_000)));
                steps += 1;
            }
        }
    }
    assert!(steps >= 30);
    let points = generator.into_points();
    assert!(is_valid_sparse(&points));
    assert!(points[points.len() - 1].0 >= 60_000_000);
}

#[test]
fn the_default_parameters_of_a_generator() {
    let params = GeneratorParams::default();
    assert_eq!(params.max_speed, 500_000);
    assert_eq!(params.min_duration, 10_000_000);
    assert_eq!(params.variability, 2_000_000);
    assert_eq!(params.rsd, 100_000);
    assert_eq!(params.turnability, 1_000_000);
    assert_eq!(params.resolution, 100_000);
    assert_eq!(params.check(), Ok(()));
}

#[test]
fn parameters_are_checked_before_any_work() {
    let good = GeneratorParams::default();
    assert_eq!(
        GeneratorParams { resolution: 0, ..good }.check(),
        Err(ConfigurationError::NonPositiveResolution)
    );
    assert_eq!(
        GeneratorParams { resolution: -1, max_speed: -1, ..good }.check(),
        Err(ConfigurationError::NonPositiveResolution)
    );
    let refused = Err(ConfigurationError::InvalidParameter);
    assert_eq!(GeneratorParams { max_speed: -1, ..good }.check(), refused);
    assert_eq!(GeneratorParams { min_duration: -1, ..good }.check(), refused);
    assert_eq!(GeneratorParams { variability: 0, ..good }.check(), refused);
    assert_eq!(GeneratorParams { rsd: -1, ..good }.check(), refused);
    assert_eq!(GeneratorParams { turnability: -1, ..good }.check(), refused);
    assert_eq!(GeneratorParams { turnability: i64::MAX, ..good }.check(), refused);
    assert_eq!(GeneratorParams { min_duration: i64::MAX, ..good }.check(), refused);
    assert_eq!(GeneratorParams { max_speed: 0, min_duration: 0, rsd: 0, turnability: 0, ..good }.check(), Ok(()));
}

#[test]
fn a_speed_takes_one_draw_for_the_nominal_speed_and_twelve_for_the_deviate() {
    let mut script = vec![300_000];
    script.extend(draws_for(-500_000));
    script.push(123);
    let mut source = Scripted::new(script);
    // noise of 0.05 times a deviate of minus one half
    assert_eq!(draw_speed(&mut source, 500_000, 100_000, -500_000), 275_000);
    assert_eq!(source.next, 13);
    // the next draw is untouched
    assert_eq!(source.uniform(0, 1_000), 123);
}

#[test]
fn a_speed_without_a_range_takes_the_twelve_draws_of_the_deviate_alone() {
    let mut source = Scripted::new(draws_for(-500_000));
    // the nominal speed is the greatest speed, and the limits leave no room for noise
    assert_eq!(draw_speed(&mut source, 500_000, 100_000, 500_000), 500_000);
    assert_eq!(source.next, 12);
    let mut source = Scripted::new(draws_for(-500_000));
    assert_eq!(draw_speed(&mut source, 0, 100_000, 0), 0);
    assert_eq!(source.next, 12);
}

#[test]
fn a_duration_is_one_more_than_the_draw() {
    let mut source = Scripted::new(vec![0, 41, 1_999_999]);
    assert_eq!(draw_duration(&mut source, 2_000_000), 1);
    assert_eq!(draw_duration(&mut source, 2_000_000), 42);
    assert_eq!(draw_duration(&mut source, 2_000_000), 2_000_000);
    assert_eq!(source.next, 3);
}

#[test]
fn refused_parameters_and_finished_generators_draw_nothing() {
    let mut source = Scripted::new(vec![]);
    assert!(generate_1d_trajectory_points_simple(-1, 10, 2, 1, &mut source).is_err());
    assert_eq!(source.next, 0);
    let generator = PlanarGenerator::new(500_000, 0, 2_000_000, 100_000, 1_000_000).unwrap();
    assert_eq!(generator.next_action(&mut source), GeneratorAction::Finished);
    assert_eq!(source.next, 0);
}
