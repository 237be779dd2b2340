use fanctl::curve::{duty_for, evaluate, PwmCalculator, FAN_MAX_TEMP, FAN_OFF_TEMP};
use fanctl::number::parse_number;
use fanctl::sensors::{Enablement, SystemInfo, ThermalZone};

#[test]
fn thresholds_are_in_order() {
    assert_eq!(FAN_OFF_TEMP, 35000);
    assert_eq!(FAN_MAX_TEMP, 50000);
    assert!(FAN_OFF_TEMP < FAN_MAX_TEMP);
}

#[test]
fn combine_follows_its_four_cases() {
    assert_eq!(PwmCalculator::max(None, None), None);
    assert_eq!(PwmCalculator::max(Some(41000), None), Some(41000));
    assert_eq!(PwmCalculator::max(None, Some(39000)), Some(39000));
    assert_eq!(PwmCalculator::max(Some(41000), Some(39000)), Some(41000));
    assert_eq!(PwmCalculator::max(Some(39000), Some(41000)), Some(41000));
    assert_eq!(PwmCalculator::max(Some(-2000), Some(-3000)), Some(-2000));
    assert_eq!(PwmCalculator::max(Some(40000), Some(40000)), Some(40000));
    assert_eq!(PwmCalculator::max(Some(i64::MIN), Some(i64::MAX)), Some(i64::MAX));
}

#[test]
fn fan_is_off_at_and_below_the_lower_threshold() {
    for t in [i64::MIN, -40000, 0, 29999, 30000] {
        assert_eq!(duty_for(t, 30000, 50000), 0);
    }
    for t in [i64::MIN, 0, 34999, FAN_OFF_TEMP] {
        assert_eq!(evaluate(Some(t)), Some(0));
    }
}

#[test]
fn fan_is_at_full_speed_at_and_above_the_upper_threshold() {
    for t in [50000, 50001, 100000, i64::MAX] {
        assert_eq!(duty_for(t, 30000, 50000), 255);
    }
    for t in [FAN_MAX_TEMP, 50001, i64::MAX] {
        assert_eq!(evaluate(Some(t)), Some(255));
    }
}

#[test]
fn duty_scales_linearly_between_the_thresholds() {
    assert_eq!(duty_for(40000, 30000, 50000), 127);
    assert_eq!(duty_for(35000, 30000, 50000), 63);
    assert_eq!(duty_for(45000, 30000, 50000), 191);
    assert_eq!(duty_for(30001, 30000, 50000), 0);
    assert_eq!(duty_for(30079, 30000, 50000), 1);
    assert_eq!(duty_for(49999, 30000, 50000), 254);
    assert_eq!(evaluate(Some(40000)), Some(85));
    assert_eq!(evaluate(Some(36000)), Some(17));
    assert_eq!(evaluate(Some(42500)), Some(127));
    assert_eq!(evaluate(Some(49999)), Some(254));
}

#[test]
fn duty_never_falls_as_temperature_rises() {
    let mut last: u8 = 0;
    let mut t: i64 = 34000;
    while t <= 51000 {
        let d = duty_for(t, FAN_OFF_TEMP, FAN_MAX_TEMP);
        assert!(d >= last);
        last = d;
        t += 1;
    }
    assert_eq!(last, 255);
}

#[test]
fn duty_rises_with_each_full_step_between_the_thresholds() {
    let step: i64 = 59;
    assert!(255 * step >= FAN_MAX_TEMP - FAN_OFF_TEMP);
    let mut t: i64 = FAN_OFF_TEMP + 1;
    while t + step < FAN_MAX_TEMP {
        assert!(duty_for(t, FAN_OFF_TEMP, FAN_MAX_TEMP) < duty_for(t + step, FAN_OFF_TEMP, FAN_MAX_TEMP));
        t += 1;
    }
}

#[test]
fn duty_survives_extreme_thresholds() {
    assert_eq!(duty_for(0, i64::MIN, i64::MAX), 127);
    assert_eq!(duty_for(-1, i64::MIN, i64::MAX), 127);
    assert_eq!(duty_for(i64::MAX - 1, i64::MIN, i64::MAX), 254);
    assert_eq!(duty_for(i64::MIN + 1, i64::MIN, i64::MAX), 0);
    assert_eq!(duty_for(5, 5, 6), 0);
    assert_eq!(duty_for(6, 5, 6), 255);
}

#[test]
fn no_reading_gives_no_decision() {
    assert_eq!(evaluate(None), None);
    assert_eq!(PwmCalculator { cpu_temp: None, gpu_temp: None }.get_pwm(), None);
}

#[test]
fn hottest_sensor_wins() {
    assert_eq!(PwmCalculator { cpu_temp: Some(36000), gpu_temp: Some(42500) }.get_pwm(), Some(127));
    assert_eq!(PwmCalculator { cpu_temp: Some(42500), gpu_temp: Some(36000) }.get_pwm(), Some(127));
    assert_eq!(PwmCalculator { cpu_temp: Some(36000), gpu_temp: None }.get_pwm(), Some(17));
    assert_eq!(PwmCalculator { cpu_temp: None, gpu_temp: Some(60000) }.get_pwm(), Some(255));
}

#[test]
fn round_trip_from_snapshot_to_duty() {
    let info = SystemInfo {
        temperatures: vec![ThermalZone {
            name: "CPU-therm".to_string(),
            enabled: Enablement::Unknown,
            temperature: Some(40000),
        }],
        gpu_load: None,
    };
    let readings = PwmCalculator::from_snapshot(&info);
    assert_eq!(readings, PwmCalculator { cpu_temp: Some(40000), gpu_temp: None });
    let combined = PwmCalculator::max(readings.cpu_temp, readings.gpu_temp);
    assert_eq!(combined, Some(40000));
    assert_eq!(duty_for(combined.unwrap(), 30000, 50000), 127);
    assert_eq!(readings.get_pwm(), Some(85));
}

#[test]
fn dropped_fraction_costs_at_most_the_step_to_the_next_whole_reading() {
    assert_eq!(parse_number("35058.9"), Some(35058));
    assert_eq!(evaluate(parse_number("35058.9")), Some(0));
    assert_eq!(evaluate(Some(35059)), Some(1));
    assert_eq!(parse_number("42499.99"), Some(42499));
    assert_eq!(evaluate(parse_number("42499.99")), Some(127));
    assert_eq!(evaluate(Some(42500)), Some(127));
    assert_eq!(evaluate(parse_number("4.25e4")), Some(127));
    assert_eq!(evaluate(parse_number("1e400")), Some(255));
    assert_eq!(evaluate(parse_number("-1e400")), Some(0));
    assert_eq!(evaluate(parse_number("1e-400")), Some(0));
}
