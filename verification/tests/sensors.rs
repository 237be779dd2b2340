use fanctl::sensors::{Enablement, SystemInfo, ThermalZone};

fn zone(name: &str, enabled: Enablement, temperature: Option<i64>) -> ThermalZone {
    ThermalZone { name: name.to_string(), enabled, temperature }
}

fn snapshot(zones: Vec<ThermalZone>) -> SystemInfo {
    SystemInfo { temperatures: zones, gpu_load: None }
}

#[test]
fn enablement_counts_unless_disabled() {
    assert!(Enablement::Enabled.is_counted());
    assert!(Enablement::Unknown.is_counted());
    assert!(!Enablement::Disabled.is_counted());
}

#[test]
fn lookup_finds_a_zone_by_name() {
    let info = snapshot(vec![
        zone("AO-therm", Enablement::Enabled, Some(38500)),
        zone("CPU-therm", Enablement::Enabled, Some(41000)),
        zone("GPU-therm", Enablement::Enabled, Some(39500)),
    ]);
    assert_eq!(info.get_temp("CPU-therm"), Some(41000));
    assert_eq!(info.get_temp("GPU-therm"), Some(39500));
    assert_eq!(info.get_temp("AO-therm"), Some(38500));
    assert_eq!(info.get_temp("PLL-therm"), None);
}

#[test]
fn lookup_excludes_a_disabled_zone_whatever_its_temperature() {
    let temperatures = [None, Some(i64::MIN), Some(-1), Some(0), Some(40000), Some(i64::MAX)];
    for t in temperatures {
        let info = snapshot(vec![zone("CPU-therm", Enablement::Disabled, t)]);
        assert_eq!(info.get_temp("CPU-therm"), None);
        assert_eq!(info.get_cpu_temp(), None);
    }
}

#[test]
fn lookup_includes_enabled_and_unknown_zones() {
    let temperatures = [None, Some(i64::MIN), Some(-1), Some(0), Some(40000), Some(i64::MAX)];
    for t in temperatures {
        for e in [Enablement::Enabled, Enablement::Unknown] {
            let info = snapshot(vec![zone("CPU-therm", e, t)]);
            assert_eq!(info.get_temp("CPU-therm"), t);
        }
    }
}

#[test]
fn lookup_passes_over_a_disabled_zone_to_a_later_one() {
    let info = snapshot(vec![
        zone("CPU-therm", Enablement::Disabled, Some(90000)),
        zone("CPU-therm", Enablement::Unknown, Some(42000)),
    ]);
    assert_eq!(info.get_temp("CPU-therm"), Some(42000));
}

#[test]
fn lookup_is_the_same_without_the_disabled_zones() {
    let with = snapshot(vec![
        zone("GPU-therm", Enablement::Disabled, Some(1000)),
        zone("CPU-therm", Enablement::Disabled, Some(2000)),
        zone("GPU-therm", Enablement::Enabled, Some(3000)),
        zone("CPU-therm", Enablement::Disabled, None),
        zone("CPU-therm", Enablement::Unknown, Some(4000)),
    ]);
    let without = snapshot(vec![
        zone("GPU-therm", Enablement::Enabled, Some(3000)),
        zone("CPU-therm", Enablement::Unknown, Some(4000)),
    ]);
    for name in ["CPU-therm", "GPU-therm", "AO-therm"] {
        assert_eq!(with.get_temp(name), without.get_temp(name));
    }
    assert_eq!(with.get_temp("CPU-therm"), Some(4000));
    assert_eq!(with.get_temp("GPU-therm"), Some(3000));
}

#[test]
fn lookup_takes_the_first_match() {
    let info = snapshot(vec![
        zone("CPU-therm", Enablement::Enabled, Some(41000)),
        zone("CPU-therm", Enablement::Enabled, Some(99000)),
    ]);
    assert_eq!(info.get_temp("CPU-therm"), Some(41000));
}

#[test]
fn lookup_stops_at_a_first_match_without_temperature() {
    let info = snapshot(vec![
        zone("CPU-therm", Enablement::Enabled, None),
        zone("CPU-therm", Enablement::Enabled, Some(41000)),
    ]);
    assert_eq!(info.get_temp("CPU-therm"), None);
}

#[test]
fn lookup_matches_names_exactly() {
    let info = snapshot(vec![zone("CPU-therm", Enablement::Enabled, Some(41000))]);
    assert_eq!(info.get_temp("cpu-therm"), None);
    assert_eq!(info.get_temp("CPU-therm "), None);
    assert_eq!(info.get_temp("CPU"), None);
    assert_eq!(info.get_temp(""), None);
}

#[test]
fn lookup_in_an_empty_snapshot_finds_nothing() {
    let info = snapshot(vec![]);
    assert_eq!(info.get_temp("CPU-therm"), None);
    assert_eq!(info.get_cpu_temp(), None);
    assert_eq!(info.get_gpu_temp(), None);
}

#[test]
fn cpu_and_gpu_lookups_use_their_labels() {
    let info = snapshot(vec![
        zone("GPU-therm", Enablement::Unknown, Some(39500)),
        zone("CPU-therm", Enablement::Unknown, Some(41000)),
    ]);
    assert_eq!(info.get_cpu_temp(), Some(41000));
    assert_eq!(info.get_gpu_temp(), Some(39500));
}
