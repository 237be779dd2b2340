use fanctl::sensors::{Enablement, ThermalZone};
use fanctl::sysfs::{
    get_thermal_zone, is_thermal_zone, read_enablement, read_gpu_load, read_number,
    read_temperatures, starts_with, take_snapshot, ZoneEntry, ZoneFiles, FAN_PWM_FILE,
    GPU_LOAD_FILE, LABEL_FILE, MODE_FILE, TEMP_FILE, THERMAL_DIR,
};

fn text(s: &str) -> Option<String> {
    Some(s.to_string())
}

fn files(label: Option<&str>, mode: Option<&str>, temp: Option<&str>) -> ZoneFiles {
    ZoneFiles {
        label: label.map(|s| s.to_string()),
        mode: mode.map(|s| s.to_string()),
        temp: temp.map(|s| s.to_string()),
    }
}

fn entry(file_name: &str, files: ZoneFiles) -> Option<ZoneEntry> {
    Some(ZoneEntry { file_name: file_name.to_string(), files })
}

#[test]
fn platform_paths_are_the_documented_ones() {
    assert_eq!(THERMAL_DIR, "/sys/devices/virtual/thermal/");
    assert_eq!(GPU_LOAD_FILE, "/sys/devices/gpu.0/load");
    assert_eq!(FAN_PWM_FILE, "/sys/devices/pwm-fan/target_pwm");
    assert_eq!(LABEL_FILE, "type");
    assert_eq!(MODE_FILE, "mode");
    assert_eq!(TEMP_FILE, "temp");
}

#[test]
fn starts_with_tests_the_beginning() {
    assert!(starts_with("thermal_zone0", "thermal_zone"));
    assert!(starts_with("abc", ""));
    assert!(starts_with("", ""));
    assert!(starts_with("abc", "abc"));
    assert!(!starts_with("ab", "abc"));
    assert!(!starts_with("xabc", "abc"));
    assert!(!starts_with("", "a"));
}

#[test]
fn zone_entries_are_told_by_their_prefix() {
    assert!(is_thermal_zone("thermal_zone0"));
    assert!(is_thermal_zone("thermal_zone12"));
    assert!(is_thermal_zone("thermal_zone"));
    assert!(!is_thermal_zone("cooling_device0"));
    assert!(!is_thermal_zone("thermal_zon"));
    assert!(!is_thermal_zone("Thermal_zone0"));
    assert!(!is_thermal_zone(" thermal_zone0"));
    assert!(!is_thermal_zone(""));
}

#[test]
fn mode_is_enabled_only_for_the_word_enabled() {
    assert_eq!(read_enablement(&text("enabled\n")), Enablement::Enabled);
    assert_eq!(read_enablement(&text("  enabled  ")), Enablement::Enabled);
    assert_eq!(read_enablement(&text("enabled")), Enablement::Enabled);
    assert_eq!(read_enablement(&text("disabled\n")), Enablement::Disabled);
    assert_eq!(read_enablement(&text("Enabled\n")), Enablement::Disabled);
    assert_eq!(read_enablement(&text("enabled now")), Enablement::Disabled);
    assert_eq!(read_enablement(&text("")), Enablement::Disabled);
}

#[test]
fn mode_that_cannot_be_read_is_unknown() {
    assert_eq!(read_enablement(&None), Enablement::Unknown);
}

#[test]
fn numbers_are_read_from_trimmed_text() {
    assert_eq!(read_number(&text("40000\n")), Some(40000));
    assert_eq!(read_number(&text(" -1500 ")), Some(-1500));
    assert_eq!(read_number(&text("0\n")), Some(0));
    assert_eq!(read_number(&text("\n")), None);
    assert_eq!(read_number(&text("n/a\n")), None);
    assert_eq!(read_number(&None), None);
}

#[test]
fn numbers_with_a_fraction_or_an_exponent_are_read() {
    assert_eq!(read_number(&text("40000.5\n")), Some(40000));
    assert_eq!(read_number(&text(" 4e4 ")), Some(40000));
    assert_eq!(read_number(&text("1.5\n")), Some(1));
    assert_eq!(read_number(&text("5.\n")), Some(5));
    assert_eq!(read_number(&text(".5\n")), Some(0));
    assert_eq!(read_number(&text("inf\n")), None);
    assert_eq!(read_number(&text("nan\n")), None);
}

#[test]
fn gpu_load_is_read_in_tenths_of_a_percent() {
    assert_eq!(read_gpu_load(&text("50.5\n")), Some(50));
    assert_eq!(read_gpu_load(&text("125\n")), Some(125));
    assert_eq!(read_gpu_load(&text("0\n")), Some(0));
    assert_eq!(read_gpu_load(&text("busy\n")), None);
    assert_eq!(read_gpu_load(&None), None);
}

#[test]
fn zone_is_built_from_its_files() {
    let zone = get_thermal_zone(&files(Some("CPU-therm\n"), Some("enabled\n"), Some("40000\n")));
    assert_eq!(
        zone,
        Some(ThermalZone {
            name: "CPU-therm".to_string(),
            enabled: Enablement::Enabled,
            temperature: Some(40000),
        })
    );
}

#[test]
fn zone_without_label_is_dropped() {
    assert_eq!(get_thermal_zone(&files(None, Some("enabled\n"), Some("40000\n"))), None);
    assert_eq!(get_thermal_zone(&files(None, None, None)), None);
}

#[test]
fn zone_without_mode_is_kept_as_unknown() {
    let zone = get_thermal_zone(&files(Some("GPU-therm\n"), None, Some("39500\n")));
    assert_eq!(
        zone,
        Some(ThermalZone {
            name: "GPU-therm".to_string(),
            enabled: Enablement::Unknown,
            temperature: Some(39500),
        })
    );
}

#[test]
fn zone_with_unreadable_temperature_is_kept_without_it() {
    let zone = get_thermal_zone(&files(Some("CPU-therm\n"), Some("enabled\n"), None));
    assert_eq!(
        zone,
        Some(ThermalZone {
            name: "CPU-therm".to_string(),
            enabled: Enablement::Enabled,
            temperature: None,
        })
    );
}

#[test]
fn zone_with_non_numeric_temperature_is_kept_without_it() {
    let zone = get_thermal_zone(&files(Some("CPU-therm\n"), None, Some("not a number\n")));
    assert_eq!(
        zone,
        Some(ThermalZone {
            name: "CPU-therm".to_string(),
            enabled: Enablement::Unknown,
            temperature: None,
        })
    );
    let info = take_snapshot(
        &Some(vec![entry(
            "thermal_zone0",
            files(Some("CPU-therm\n"), None, Some("not a number\n")),
        )]),
        &None,
    );
    assert_eq!(info.get_cpu_temp(), None);
    assert_eq!(fanctl::curve::PwmCalculator::from_snapshot(&info).get_pwm(), None);
}

#[test]
fn zone_with_a_fraction_in_its_temperature_keeps_the_whole_thousandths() {
    for reading in ["40000.5\n", "4e4\n", "40000.999\n", "4.00005e4\n"] {
        let zone = get_thermal_zone(&files(Some("CPU-therm\n"), None, Some(reading)));
        assert_eq!(
            zone,
            Some(ThermalZone {
                name: "CPU-therm".to_string(),
                enabled: Enablement::Unknown,
                temperature: Some(40000),
            })
        );
        let info = take_snapshot(
            &Some(vec![entry("thermal_zone0", files(Some("CPU-therm\n"), None, Some(reading)))]),
            &None,
        );
        assert_eq!(info.get_cpu_temp(), Some(40000));
        assert_eq!(fanctl::curve::PwmCalculator::from_snapshot(&info).get_pwm(), Some(85));
    }
}

#[test]
fn zone_with_empty_label_has_an_empty_name() {
    let zone = get_thermal_zone(&files(Some("\n"), None, None));
    assert_eq!(
        zone,
        Some(ThermalZone { name: String::new(), enabled: Enablement::Unknown, temperature: None })
    );
}

#[test]
fn unreadable_directory_gives_no_zones() {
    assert_eq!(read_temperatures(&None), Vec::<ThermalZone>::new());
    let info = take_snapshot(&None, &None);
    assert!(info.temperatures.is_empty());
    assert_eq!(info.gpu_load, None);
}

#[test]
fn empty_directory_gives_no_zones() {
    assert_eq!(read_temperatures(&Some(vec![])), Vec::<ThermalZone>::new());
}

#[test]
fn listing_keeps_zones_in_order_and_skips_the_rest() {
    let listing = Some(vec![
        entry("cooling_device0", files(Some("pwm-fan\n"), None, None)),
        entry("thermal_zone1", files(Some("GPU-therm\n"), Some("enabled\n"), Some("39500\n"))),
        None,
        entry("thermal_zone0", files(Some("CPU-therm\n"), None, Some("41000\n"))),
        entry("thermal_zone2", files(None, Some("enabled\n"), Some("50000\n"))),
        entry("thermal_zone3", files(Some("PLL-therm\n"), Some("disabled\n"), Some("x\n"))),
        entry("thermal_zone0", files(Some("CPU-therm\n"), None, Some("41000\n"))),
    ]);
    let zones = read_temperatures(&listing);
    let cpu = ThermalZone {
        name: "CPU-therm".to_string(),
        enabled: Enablement::Unknown,
        temperature: Some(41000),
    };
    assert_eq!(
        zones,
        vec![
            ThermalZone {
                name: "GPU-therm".to_string(),
                enabled: Enablement::Enabled,
                temperature: Some(39500),
            },
            cpu.clone(),
            ThermalZone {
                name: "PLL-therm".to_string(),
                enabled: Enablement::Disabled,
                temperature: None,
            },
            cpu,
        ]
    );
}

#[test]
fn snapshot_holds_zones_and_gpu_load() {
    let listing = Some(vec![
        entry("thermal_zone0", files(Some("CPU-therm\n"), Some("enabled\n"), Some("41000\n"))),
        entry("thermal_zone1", files(Some("GPU-therm\n"), Some("disabled\n"), Some("80000\n"))),
    ]);
    let info = take_snapshot(&listing, &text("437\n"));
    assert_eq!(info.temperatures.len(), 2);
    assert_eq!(info.gpu_load, Some(437));
    assert_eq!(info.get_cpu_temp(), Some(41000));
    assert_eq!(info.get_gpu_temp(), None);
}
