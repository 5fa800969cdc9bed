use datagen::base::Metres2D;
use datagen::control::{
    Controller, PController, PControllerParams, PIDController, PIDControllerParams,
    UniformPIDController2D,
};

fn gains(p_gain: i64, i_gain: i64, d_gain: i64, limit: i64) -> PIDControllerParams {
    PIDControllerParams { p_gain, i_gain, d_gain, vel_limits: (-limit, limit) }
}

#[test]
fn default_parameters() {
    let p = PControllerParams::default();
    assert_eq!(p.p_gain, -1_000_000);
    assert_eq!(p.vel_limits, (-500_000, 500_000));
    let pid = PIDControllerParams::default();
    assert_eq!(pid.p_gain, -1_000_000);
    assert_eq!(pid.i_gain, 0);
    assert_eq!(pid.d_gain, 0);
    assert_eq!(pid.vel_limits, (-500_000, 500_000));
}

#[test]
fn a_proportional_controller_scales_the_error() {
    let mut controller = PController::new(PControllerParams::default());
    assert_eq!(controller.step(200_000i64, 100_000), -200_000);
    assert_eq!(controller.step(-300_000i64, 100_000), 300_000);
    assert_eq!(controller.step(0i64, 100_000), 0);
    // it keeps no state
    assert_eq!(controller.step(200_000i64, 100_000), -200_000);
    let mut doubling = PController::new(PControllerParams { p_gain: 2_000_000, vel_limits: (-9_000_000, 9_000_000) });
    assert_eq!(
        doubling.step(Metres2D::new(100_000, -200_000), 100_000),
        Metres2D::new(200_000, -400_000)
    );
}

#[test]
fn a_proportional_controller_saturates() {
    let mut controller = PController::new(PControllerParams::default());
    assert_eq!(controller.step(900_000i64, 100_000), -500_000);
    assert_eq!(controller.step(-900_000i64, 100_000), 500_000);
    assert_eq!(controller.step(i64::MAX, 100_000), -500_000);
    assert_eq!(controller.step(i64::MIN, 100_000), 500_000);
    assert_eq!(
        controller.step(Metres2D::new(i64::MIN, 100_000), 100_000),
        Metres2D::new(500_000, -100_000)
    );
}

#[test]
fn the_first_step_of_a_pid_controller_is_proportional() {
    let mut controller = PIDController::new(gains(2_000_000, 1_000_000, 500_000, 10_000_000));
    assert_eq!(controller.step(100_000, 100_000), 200_000);
    let mut tuned = PIDController::new(PIDControllerParams {
        d_gain: -2_771_796,
        i_gain: -49_878_462,
        p_gain: -98_106_374,
        vel_limits: (-500_000, 500_000),
    });
    // -98.106374 times one thousandth, rounded down
    assert_eq!(tuned.step(1_000, 100_000), -98_107);
    let mut planar = UniformPIDController2D::new(gains(2_000_000, 1_000_000, 500_000, 10_000_000));
    assert_eq!(
        planar.step(Metres2D::new(100_000, -200_000), 100_000),
        Metres2D::new(200_000, -400_000)
    );
}

#[test]
fn the_first_step_is_proportional_for_many_errors() {
    for error in [-4_000_000i64, -1, 0, 1, 77, 123_456, 4_999_999] {
        for dt in [1i64, 100_000, 1_000_000] {
            let mut controller = PIDController::new(gains(2_000_000, 3_000_000, 4_000_000, 10_000_000));
            assert_eq!(controller.step(error, dt), 2 * error);
        }
    }
}

#[test]
fn a_fresh_controller_has_no_history() {
    let controller = PIDController::new(PIDControllerParams::default());
    assert_eq!(controller.integral, 0);
    assert_eq!(controller.previous, None);
    let planar = UniformPIDController2D::new(PIDControllerParams::default());
    assert_eq!(planar.integral, Metres2D::new(0, 0));
    assert_eq!(planar.previous, None);
}

#[test]
fn later_steps_add_the_integral_and_the_derivative() {
    let mut controller = PIDController::new(gains(2_000_000, 1_000_000, 500_000, 10_000_000));
    assert_eq!(controller.step(100_000, 100_000), 200_000);
    assert_eq!(controller.integral, 10_000);
    assert_eq!(controller.previous, Some(100_000));
    // the same error again: the integral of the first step comes in
    assert_eq!(controller.step(100_000, 100_000), 210_000);
    assert_eq!(controller.integral, 20_000);
    // the error rises by 0.2 in a tenth of a second
    assert_eq!(controller.step(300_000, 100_000), 1_620_000);
    assert_eq!(controller.integral, 50_000);
    assert_eq!(controller.previous, Some(300_000));
}

#[test]
fn the_planar_controller_treats_each_axis_alone() {
    let mut planar = UniformPIDController2D::new(gains(2_000_000, 1_000_000, 500_000, 10_000_000));
    let mut along_x = PIDController::new(gains(2_000_000, 1_000_000, 500_000, 10_000_000));
    let mut along_y = PIDController::new(gains(2_000_000, 1_000_000, 500_000, 10_000_000));
    let errors = [(100_000i64, -50_000i64), (100_000, 250_000), (300_000, 0), (-700_000, 1)];
    for (x, y) in errors {
        let command = planar.step(Metres2D::new(x, y), 100_000);
        assert_eq!(command.x, along_x.step(x, 100_000));
        assert_eq!(command.y, along_y.step(y, 100_000));
    }
}

#[test]
fn the_derivative_is_zero_where_the_time_step_is_not_positive() {
    let mut controller = PIDController::new(gains(0, 0, 1_000_000, 10_000_000));
    assert_eq!(controller.step(100_000, 0), 0);
    assert_eq!(controller.step(500_000, 0), 0);
    assert_eq!(controller.step(900_000, -100_000), 0);
    assert_eq!(controller.step(1_000_000, 100_000), 1_000_000);
}

#[test]
fn commands_stay_within_the_velocity_limits() {
    let mut controller = PIDController::new(PIDControllerParams {
        p_gain: -98_106_374,
        i_gain: -49_878_462,
        d_gain: -2_771_796,
        vel_limits: (-500_000, 500_000),
    });
    let errors = [
        i64::MAX,
        i64::MIN,
        1,
        -1,
        0,
        10_000_000,
        -10_000_000,
        5_000,
        -5_000,
        i64::MAX,
        i64::MIN,
    ];
    for error in errors {
        for dt in [1i64, 100_000, i64::MAX] {
            let command = controller.step(error, dt);
            assert!(-500_000 <= command && command <= 500_000);
        }
    }
    assert_eq!(controller.step(1_000_000, 100_000), -500_000);
}

#[test]
fn planar_commands_stay_within_the_velocity_limits() {
    let mut controller = UniformPIDController2D::new(PIDControllerParams {
        i_gain: -28_482_765,
        d_gain: 2_584_870,
        p_gain: -123_577_260,
        ..PIDControllerParams::default()
    });
    let errors = [
        Metres2D::new(i64::MAX, i64::MIN),
        Metres2D::new(0, 0),
        Metres2D::new(-3, 4),
        Metres2D::new(i64::MIN, i64::MIN),
        Metres2D::new(2_000_000, -2_000_000),
    ];
    for error in errors {
        let command = controller.step(error, 100_000);
        assert!(-500_000 <= command.x && command.x <= 500_000);
        assert!(-500_000 <= command.y && command.y <= 500_000);
    }
}

#[test]
fn asymmetric_limits_are_kept() {
    let mut controller = PIDController::new(PIDControllerParams {
        p_gain: 1_000_000,
        i_gain: 0,
        d_gain: 0,
        vel_limits: (-100_000, 700_000),
    });
    assert_eq!(controller.step(5_000_000, 100_000), 700_000);
    assert_eq!(controller.step(-5_000_000, 100_000), -100_000);
    assert_eq!(controller.step(650_000, 100_000), 650_000);
}
