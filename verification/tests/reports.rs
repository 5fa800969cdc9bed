use datagen::base::Metres2D;
use datagen::error::{ConfigurationError, PlanningFailure};
use datagen::report::{
    decimal_width, file_name, fixed_to_string, formation_rows, padded_index, progress_line,
    trajectory_rows,
};

#[test]
fn the_width_of_a_number_is_its_number_of_digits() {
    assert_eq!(decimal_width(0), 1);
    assert_eq!(decimal_width(9), 1);
    assert_eq!(decimal_width(10), 2);
    assert_eq!(decimal_width(99), 2);
    assert_eq!(decimal_width(100), 3);
    assert_eq!(decimal_width(1_000), 4);
    assert_eq!(decimal_width(u64::MAX), 20);
    for n in [0u64, 7, 10, 123, 4_096, 99_999, 100_000, 18_446_744_073_709_551_615] {
        assert_eq!(decimal_width(n), n.to_string().len());
    }
}

#[test]
fn an_index_is_padded_to_the_width_of_the_count() {
    assert_eq!(padded_index(7, 1_000), "0007");
    assert_eq!(padded_index(0, 5), "0");
    assert_eq!(padded_index(42, 100), "042");
    assert_eq!(padded_index(100, 100), "100");
    // an index that is wider than the count is not cut
    assert_eq!(padded_index(1_234, 10), "1234");
}

#[test]
fn file_names_hold_the_padded_index() {
    assert_eq!(file_name("traj_", 7, 100, ".csv"), "traj_007.csv");
    assert_eq!(file_name("dtraj_", 0, 5, ".csv"), "dtraj_0.csv");
    assert_eq!(file_name("traj_", 3, 20, "_l0.csv"), "traj_03_l0.csv");
    assert_eq!(file_name("traj_", 19, 20, "_l1.csv"), "traj_19_l1.csv");
    assert_eq!(file_name("", 5, 1_000, ""), "0005");
}

#[test]
fn file_names_are_what_formatting_with_a_width_gives() {
    for count in [1usize, 9, 10, 11, 99, 100, 250, 1_000, 12_345] {
        let width = count.to_string().len();
        for i in [0usize, 1, 9, 10, 99, 100, 999, 12_344] {
            if i < count {
                assert_eq!(
                    file_name("traj_", i, count, ".csv"),
                    format!("traj_{:0width$}.csv", i, width = width)
                );
                assert_eq!(
                    file_name("traj_", i, count, "_l1.csv"),
                    format!("traj_{:0width$}_l1.csv", i, width = width)
                );
            }
        }
    }
}

#[test]
fn the_progress_line_counts_in_padded_numbers() {
    assert_eq!(progress_line(1, 20), "\rWorking... [01/20]");
    assert_eq!(progress_line(20, 20), "\rWorking... [20/20]");
    assert_eq!(progress_line(3, 7), "\rWorking... [3/7]");
    for count in [1usize, 10, 100, 1_234] {
        let width = count.to_string().len();
        for done in [1usize, 2, 10, 99, 1_234] {
            if done <= count {
                assert_eq!(
                    progress_line(done, count),
                    format!("\rWorking... [{:0width$}/{:0width$}]", done, count, width = width)
                );
            }
        }
    }
}

#[test]
fn whole_numbers_are_written_without_a_point() {
    assert_eq!(fixed_to_string(0), "0");
    assert_eq!(fixed_to_string(1_000_000), "1");
    assert_eq!(fixed_to_string(11_000_000), "11");
    assert_eq!(fixed_to_string(-3_000_000), "-3");
    assert_eq!(fixed_to_string(120_000_000), "120");
}

#[test]
fn fractions_are_written_without_zeros_at_the_end() {
    assert_eq!(fixed_to_string(1_500_000), "1.5");
    assert_eq!(fixed_to_string(100_000), "0.1");
    assert_eq!(fixed_to_string(-250_000), "-0.25");
    assert_eq!(fixed_to_string(1), "0.000001");
    assert_eq!(fixed_to_string(-1), "-0.000001");
    assert_eq!(fixed_to_string(10), "0.00001");
    assert_eq!(fixed_to_string(1_000_001), "1.000001");
    assert_eq!(fixed_to_string(2_050_000), "2.05");
    assert_eq!(fixed_to_string(-98_106_374), "-98.106374");
    assert_eq!(fixed_to_string(3_141_593), "3.141593");
    assert_eq!(fixed_to_string(700_700), "0.7007");
}

#[test]
fn the_ends_of_the_range_are_written_in_full() {
    assert_eq!(fixed_to_string(i64::MAX), "9223372036854.775807");
    assert_eq!(fixed_to_string(i64::MIN), "-9223372036854.775808");
}

#[test]
fn the_text_of_a_number_reads_back_as_the_number() {
    for x in [0i64, 1, -1, 999_999, 1_000_000, -1_000_001, 123_456_789, -500_000, 42_000_000] {
        let text = fixed_to_string(x);
        let (negative, digits) = match text.strip_prefix('-') {
            Some(rest) => (true, rest),
            None => (false, text.as_str()),
        };
        let (whole, fraction) = match digits.split_once('.') {
            Some((w, f)) => (w, f),
            None => (digits, ""),
        };
        assert!(!fraction.ends_with('0'));
        let mut millionths = format!("{:0<6}", fraction).parse::<i64>().unwrap();
        millionths += whole.parse::<i64>().unwrap() * 1_000_000;
        assert_eq!(if negative { -millionths } else { millionths }, x);
    }
}

#[test]
fn a_trajectory_gives_one_row_for_each_sample() {
    let line = vec![(0i64, 0i64), (2_000_000, 600_000), (3_000_000, 405_000)];
    assert_eq!(
        trajectory_rows(&line),
        vec![vec![0, 0], vec![2_000_000, 600_000], vec![3_000_000, 405_000]]
    );
    let plane = vec![(0i64, Metres2D::new(1, 2)), (5, Metres2D::new(-3, 4))];
    assert_eq!(trajectory_rows(&plane), vec![vec![0, 1, 2], vec![5, -3, 4]]);
    assert_eq!(trajectory_rows::<i64>(&vec![]), Vec::<Vec<i64>>::new());
}

#[test]
fn a_pair_of_traces_gives_one_row_for_each_common_step() {
    let first = vec![0i64, 50_000, 100_000];
    let second = vec![-200_000i64, -195_000, -185_500];
    assert_eq!(
        formation_rows(100_000, &first, &second),
        vec![vec![0, 0, -200_000], vec![100_000, 50_000, -195_000], vec![200_000, 100_000, -185_500]]
    );
    // as far as both traces reach
    assert_eq!(formation_rows(100_000, &first, &vec![7i64]), vec![vec![0, 0, 7]]);
    assert_eq!(formation_rows(100_000, &Vec::<i64>::new(), &second), Vec::<Vec<i64>>::new());
    let a = vec![Metres2D::new(1, 2), Metres2D::new(3, 4)];
    let b = vec![Metres2D::new(5, 6), Metres2D::new(7, 8)];
    assert_eq!(formation_rows(250_000, &a, &b), vec![vec![0, 1, 2, 5, 6], vec![250_000, 3, 4, 7, 8]]);
}

#[test]
fn row_times_saturate() {
    let first = vec![1i64, 2, 3];
    assert_eq!(
        formation_rows(i64::MAX, &first, &first),
        vec![vec![0, 1, 1], vec![i64::MAX, 2, 2], vec![i64::MAX, 3, 3]]
    );
}

#[test]
fn every_error_has_a_message() {
    let errors = [
        ConfigurationError::NonPositiveResolution,
        ConfigurationError::MalformedTrajectory,
        ConfigurationError::TooManySamples,
        ConfigurationError::InvalidParameter,
        ConfigurationError::NonPositiveTurningRadius,
        ConfigurationError::MismatchedFormation,
        ConfigurationError::TrajectoryTooShort,
    ];
    for (i, error) in errors.iter().enumerate() {
        assert!(!error.message().is_empty());
        for other in errors.iter().skip(i + 1) {
            assert_ne!(error.message(), other.message());
        }
    }
    assert_eq!(PlanningFailure { accepted: 3 }.accepted, 3);
}
