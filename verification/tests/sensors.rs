use datagen::base::Metres2D;
use datagen::random::RandomSource;
use datagen::sensor::{draw_deviate, CombinedIrEncoderSensor, Sensor, SharpIrSensor, OUT_OF_RANGE};

struct Scripted {
    values: Vec<i64>,
    next: usize,
}

impl RandomSource for Scripted {
    fn uniform(&mut self, low: i64, high: i64) -> i64 {
        let value = self.values[self.next];
        self.next += 1;
        value.clamp(low, high - 1)
    }
}

#[test]
fn the_default_infrared_sensor() {
    let sensor = SharpIrSensor::new();
    assert_eq!(sensor.min_range, 100_000);
    assert_eq!(sensor.max_range, 800_000);
    assert_eq!(sensor.gain, 250_000);
    assert_eq!(sensor.noise, 10_000);
    assert_eq!(OUT_OF_RANGE, 0);
}

#[test]
fn without_noise_the_distance_is_measured_as_it_is() {
    let sensor = SharpIrSensor::new();
    assert_eq!(sensor.range(200_000, 0), Some(200_000));
    assert_eq!(sensor.range(250_000, 0), Some(250_000));
    assert_eq!(sensor.range(500_000, 0), Some(500_000));
    assert_eq!(sensor.range(100_000, 0), Some(100_000));
    assert_eq!(sensor.range(800_000, 0), Some(800_000));
}

#[test]
fn noise_on_the_response_shifts_the_measurement() {
    let sensor = SharpIrSensor::new();
    // the response 1.25 becomes 1.252, and a quarter over that is 0.19968
    assert_eq!(sensor.range(200_000, 1_000_000), Some(199_680));
    assert_eq!(sensor.range(200_000, -1_000_000), Some(200_320));
    // at half a metre the same deviate weighs more
    assert_eq!(sensor.range(500_000, 1_000_000), Some(495_049));
}

#[test]
fn outside_the_valid_range_nothing_is_measured() {
    let sensor = SharpIrSensor::new();
    assert_eq!(sensor.range(99_999, 0), None);
    assert_eq!(sensor.range(800_001, 0), None);
    assert_eq!(sensor.range(0, 0), None);
    assert_eq!(sensor.range(-200_000, 0), None);
    assert_eq!(sensor.range(i64::MAX, 0), None);
    assert_eq!(sensor.range(i64::MIN, 0), None);
}

#[test]
fn a_measurement_that_noise_pushes_out_of_range_is_dropped() {
    let sensor = SharpIrSensor::new();
    // the response 0.3125 falls to 0.2965, which belongs to 0.84317 metres
    assert_eq!(sensor.range(800_000, -2_000_000), None);
    // at a tenth of a metre the response 2.5 rises to 2.506: 0.09976 metres
    assert_eq!(sensor.range(100_000, 6_000_000), None);
    // a response that noise makes negative
    let noisy = SharpIrSensor { min_range: 100_000, max_range: 800_000, gain: 250_000, noise: 1_000_000 };
    assert_eq!(noisy.range(800_000, -1_000_000), None);
}

#[test]
fn on_a_line_the_reading_keeps_the_sign_of_the_true_position() {
    let sensor = SharpIrSensor::new();
    assert_eq!(sensor.sense(200_000, 0), 200_000);
    assert_eq!(sensor.sense(-200_000, 0), -200_000);
    assert_eq!(sensor.sense(200_000, 1_000_000), 199_680);
    assert_eq!(sensor.sense(-200_000, 1_000_000), -199_680);
}

#[test]
fn on_a_line_the_marker_stands_for_out_of_range() {
    let sensor = SharpIrSensor::new();
    assert_eq!(sensor.sense(1_000_000, 0), OUT_OF_RANGE);
    assert_eq!(sensor.sense(-1_000_000, 0), OUT_OF_RANGE);
    assert_eq!(sensor.sense(50_000, 0), OUT_OF_RANGE);
    assert_eq!(sensor.sense(0, 0), OUT_OF_RANGE);
    assert_eq!(sensor.sense(i64::MIN, 0), OUT_OF_RANGE);
    assert_eq!(sensor.sense(i64::MAX, 0), OUT_OF_RANGE);
}

#[test]
fn the_default_combined_sensor() {
    let sensor = CombinedIrEncoderSensor::new();
    assert_eq!(sensor.ir, SharpIrSensor::new());
    assert_eq!(sensor.heading_noise, 10_000);
}

#[test]
fn in_the_plane_the_reading_without_noise_is_the_true_position() {
    let sensor = CombinedIrEncoderSensor::new();
    let quiet = Metres2D::new(0, 0);
    assert_eq!(sensor.sense(Metres2D::new(300_000, 400_000), quiet), Metres2D::new(300_000, 400_000));
    assert_eq!(sensor.sense(Metres2D::new(-300_000, 400_000), quiet), Metres2D::new(-300_000, 400_000));
    assert_eq!(sensor.sense(Metres2D::new(0, -200_000), quiet), Metres2D::new(0, -200_000));
}

#[test]
fn in_the_plane_the_bearing_error_turns_the_reading() {
    let sensor = CombinedIrEncoderSensor::new();
    // a hundredth of a radian anticlockwise
    assert_eq!(
        sensor.sense(Metres2D::new(300_000, 400_000), Metres2D::new(0, 1_000_000)),
        Metres2D::new(296_000, 403_000)
    );
    assert_eq!(
        sensor.sense(Metres2D::new(300_000, 400_000), Metres2D::new(0, -1_000_000)),
        Metres2D::new(304_000, 397_000)
    );
}

#[test]
fn in_the_plane_the_distance_error_stretches_the_reading() {
    let sensor = CombinedIrEncoderSensor::new();
    // half a metre is measured as 0.495049, a ratio of 0.990098
    assert_eq!(
        sensor.sense(Metres2D::new(300_000, 400_000), Metres2D::new(1_000_000, 0)),
        Metres2D::new(297_029, 396_039)
    );
}

#[test]
fn in_the_plane_the_marker_stands_for_out_of_range() {
    let sensor = CombinedIrEncoderSensor::new();
    let quiet = Metres2D::new(0, 0);
    assert_eq!(sensor.sense(Metres2D::new(1_000_000, 0), quiet), Metres2D::new(0, 0));
    assert_eq!(sensor.sense(Metres2D::new(0, 0), quiet), Metres2D::new(0, 0));
    assert_eq!(sensor.sense(Metres2D::new(50_000, 50_000), quiet), Metres2D::new(0, 0));
    assert_eq!(sensor.sense(Metres2D::new(i64::MIN, i64::MAX), quiet), Metres2D::new(0, 0));
}

#[test]
fn a_deviate_is_drawn_for_every_component() {
    let mut values = vec![500_000; 24];
    values[0] = 600_000;
    values[12] = 250_000;
    let mut source = Scripted { values, next: 0 };
    let planar: Metres2D = draw_deviate(&mut source);
    assert_eq!(planar, Metres2D::new(100_000, -250_000));
    assert_eq!(source.next, 24);
    let mut values = vec![500_000; 12];
    values[5] = 0;
    let mut source = Scripted { values, next: 0 };
    let scalar: i64 = draw_deviate(&mut source);
    assert_eq!(scalar, -500_000);
    assert_eq!(source.next, 12);
}
