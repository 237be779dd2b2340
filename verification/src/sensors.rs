//! Thermal zones and the snapshot taken of them in one sampling pass.

use vstd::prelude::*;
use vstd::string::*;

verus! {

/// Whether a zone's sensor is switched on, as far as the platform told.
#[derive(Clone, Copy, Debug, PartialEq, Eq, Structural)]
pub enum Enablement {
    /// The platform reports the zone as enabled.
    Enabled,
    /// The platform reports the zone as anything but enabled.
    Disabled,
    /// The platform did not say: the zone is treated as enabled.
    Unknown,
}

impl Enablement {
    /// Whether a zone in this state may contribute its reading: only a zone
    /// known to be disabled may not.
    pub open spec fn counts(self) -> bool {
        self != Enablement::Disabled
    }

    /// Whether a zone in this state may contribute its reading.
    pub fn is_counted(self) -> (r: bool)
        ensures
            r == self.counts(),
    {
        match self {
            Enablement::Disabled => false,
            _ => true,
        }
    }
}

/// One sensor as the platform reported it in one sampling pass.
#[derive(Clone, Debug, PartialEq, Eq)]
pub struct ThermalZone {
    /// The label that tells this sensor from the others.
    pub name: String,
    /// Whether the sensor is switched on.
    pub enabled: Enablement,
    /// The reading in thousandths of a degree Celsius, if one was obtained.
    pub temperature: Option<i64>,
}

/// A thermal zone as contracts see it.
pub struct ZoneView {
    pub name: Seq<char>,
    pub enabled: Enablement,
    pub temperature: Option<i64>,
}

impl View for ThermalZone {
    type V = ZoneView;

    open spec fn view(&self) -> ZoneView {
        ZoneView { name: self.name@, enabled: self.enabled, temperature: self.temperature }
    }
}

/// What one sampling pass found: the thermal zones in the order in which
/// they were read, and the load of the graphics processor.
#[derive(Clone, Debug, PartialEq, Eq)]
pub struct SystemInfo {
    /// The zones, in the order in which they were read. Names may repeat.
    pub temperatures: Vec<ThermalZone>,
    /// The load of the graphics processor in tenths of a percent, if it was
    /// obtained.
    pub gpu_load: Option<i64>,
}

/// A snapshot as contracts see it.
pub struct SnapshotView {
    pub zones: Seq<ZoneView>,
    pub gpu_load: Option<i64>,
}

/// The views of `zones`, in the same order.
pub open spec fn zone_views(zones: Seq<ThermalZone>) -> Seq<ZoneView> {
    zones.map_values(|z: ThermalZone| z@)
}

impl View for SystemInfo {
    type V = SnapshotView;

    open spec fn view(&self) -> SnapshotView {
        SnapshotView { zones: zone_views(self.temperatures@), gpu_load: self.gpu_load }
    }
}

/// The label of the zone that reports the processor's temperature.
pub open spec fn cpu_zone_name() -> Seq<char> {
    "CPU-therm"@
}

/// The label of the zone that reports the graphics processor's temperature.
pub open spec fn gpu_zone_name() -> Seq<char> {
    "GPU-therm"@
}

/// Whether `zone` answers a lookup by `name`: it bears that name exactly and
/// is not known to be disabled.
pub open spec fn answers(zone: ZoneView, name: Seq<char>) -> bool {
    zone.name == name && zone.enabled.counts()
}

/// The temperature that a lookup by `name` yields: that of the first zone
/// that answers, which may itself be absent; nothing where no zone answers.
pub open spec fn reading(zones: Seq<ZoneView>, name: Seq<char>) -> Option<i64>
    decreases zones.len(),
{
    if zones.len() == 0 {
        None
    } else if answers(zones.first(), name) {
        zones.first().temperature
    } else {
        reading(zones.drop_first(), name)
    }
}

/// A lookup passes over every zone that does not answer: it yields what the
/// zones from `k` on yield, if none before `k` answers.
pub proof fn lemma_reading_skips(zones: Seq<ZoneView>, name: Seq<char>, k: int)
    requires
        0 <= k <= zones.len(),
        forall|j: int| 0 <= j < k ==> !answers(#[trigger] zones[j], name),
    ensures
        reading(zones, name) == reading(zones.subrange(k, zones.len() as int), name),
    decreases k,
{
    if k == 0 {
        assert(zones.subrange(0, zones.len() as int) =~= zones);
    } else {
        let rest = zones.drop_first();
        assert(!answers(zones[0], name));
        assert forall|j: int| 0 <= j < k - 1 implies !answers(#[trigger] rest[j], name) by {
            assert(rest[j] == zones[j + 1]);
        }
        lemma_reading_skips(rest, name, k - 1);
        assert(rest.subrange(k - 1, rest.len() as int) =~= zones.subrange(
            k,
            zones.len() as int,
        ));
    }
}

/// A lookup yields the temperature of the first zone that answers.
pub proof fn lemma_reading_first_match(zones: Seq<ZoneView>, name: Seq<char>, k: int)
    requires
        0 <= k < zones.len(),
        answers(zones[k], name),
        forall|j: int| 0 <= j < k ==> !answers(#[trigger] zones[j], name),
    ensures
        reading(zones, name) == zones[k].temperature,
{
    lemma_reading_skips(zones, name, k);
    assert(zones.subrange(k, zones.len() as int).first() == zones[k]);
}

/// A lookup yields nothing where no zone answers.
pub proof fn lemma_reading_no_match(zones: Seq<ZoneView>, name: Seq<char>)
    requires
        forall|j: int| 0 <= j < zones.len() ==> !answers(#[trigger] zones[j], name),
    ensures
        reading(zones, name) is None,
{
    lemma_reading_skips(zones, name, zones.len() as int);
}

/// A lookup that yields a temperature has it from a zone that answers.
pub proof fn lemma_reading_source(zones: Seq<ZoneView>, name: Seq<char>)
    requires
        reading(zones, name) is Some,
    ensures
        exists|k: int|
            0 <= k < zones.len() && answers(#[trigger] zones[k], name) && zones[k].temperature
                == reading(zones, name),
    decreases zones.len(),
{
    if answers(zones.first(), name) {
        assert(answers(zones[0], name) && zones[0].temperature == reading(zones, name));
    } else {
        let rest = zones.drop_first();
        lemma_reading_source(rest, name);
        let k = choose|k: int|
            0 <= k < rest.len() && answers(#[trigger] rest[k], name) && rest[k].temperature
                == reading(rest, name);
        assert(zones[k + 1] == rest[k]);
    }
}

/// A zone that is known to be disabled never contributes: whatever its name
/// and its temperature, every lookup yields the same with it as without it.
pub proof fn lemma_disabled_zone_excluded(zones: Seq<ZoneView>, k: int, name: Seq<char>)
    requires
        0 <= k < zones.len(),
        zones[k].enabled == Enablement::Disabled,
    ensures
        reading(zones, name) == reading(zones.remove(k), name),
    decreases k,
{
    if k == 0 {
        assert(zones.remove(0) =~= zones.drop_first());
    } else {
        let rest = zones.drop_first();
        assert(rest[k - 1] == zones[k]);
        lemma_disabled_zone_excluded(rest, k - 1, name);
        assert(zones.remove(k).first() == zones.first());
        assert(zones.remove(k).drop_first() =~= rest.remove(k - 1));
    }
}

impl SystemInfo {
    /// The temperature of the first zone that bears `name` exactly and is
    /// not known to be disabled.
    pub fn get_temp(&self, name: &str) -> (r: Option<i64>)
        ensures
            r == reading(self@.zones, name@),
    {
        let wanted: String = name.to_owned();
        let len: usize = self.temperatures.len();
        let mut i: usize = 0;
        while i < len
            invariant
                i <= len,
                len == self.temperatures@.len(),
                wanted@ == name@,
                forall|j: int| 0 <= j < i ==> !answers(#[trigger] self@.zones[j], name@),
            decreases len - i,
        {
            let zone = &self.temperatures[i];
            if zone.name == wanted && zone.enabled.is_counted() {
                proof {
                    lemma_reading_first_match(self@.zones, name@, i as int);
                }
                return zone.temperature;
            }
            i = i + 1;
        }
        proof {
            lemma_reading_no_match(self@.zones, name@);
        }
        None
    }

    /// The processor's temperature.
    pub fn get_cpu_temp(&self) -> (r: Option<i64>)
        ensures
            r == reading(self@.zones, cpu_zone_name()),
    {
        self.get_temp("CPU-therm")
    }

    /// The graphics processor's temperature.
    pub fn get_gpu_temp(&self) -> (r: Option<i64>)
        ensures
            r == reading(self@.zones, gpu_zone_name()),
    {
        self.get_temp("GPU-therm")
    }
}

} // verus!
