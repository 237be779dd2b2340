//! The platform's thermal tree as text: which directory entries are thermal
//! zones, and what the attribute files of a zone say about it.
//!
//! Nothing here touches the file system. The caller lists the directory,
//! reads the files and hands over what it found; a file that could not be
//! read is handed over as `None`.

use crate::sensors::{zone_views, Enablement, SystemInfo, ThermalZone, ZoneView};
use crate::number::{parse_number, parsed_number};
use crate::text::{chars_of, same_text, trim, trimmed};
use vstd::prelude::*;
use vstd::string::*;

verus! {

/// The directory whose entries are the thermal zones.
pub const THERMAL_DIR: &'static str = "/sys/devices/virtual/thermal/";

/// The file that holds the load of the graphics processor.
pub const GPU_LOAD_FILE: &'static str = "/sys/devices/gpu.0/load";

/// The file that takes the fan's duty cycle.
pub const FAN_PWM_FILE: &'static str = "/sys/devices/pwm-fan/target_pwm";

/// The file of a zone's directory that holds the zone's label.
pub const LABEL_FILE: &'static str = "type";

/// The file of a zone's directory that holds the zone's mode.
pub const MODE_FILE: &'static str = "mode";

/// The file of a zone's directory that holds the zone's reading.
pub const TEMP_FILE: &'static str = "temp";

/// How the name of a thermal zone's directory begins.
pub open spec fn zone_prefix() -> Seq<char> {
    "thermal_zone"@
}

/// The mode text of a zone that is switched on.
pub open spec fn enabled_mode() -> Seq<char> {
    "enabled"@
}

/// Whether a directory entry of this name is a thermal zone.
pub open spec fn is_zone_entry(file_name: Seq<char>) -> bool {
    zone_prefix().is_prefix_of(file_name)
}

/// Whether `text` begins with `prefix`.
pub fn starts_with(text: &str, prefix: &str) -> (r: bool)
    ensures
        r == prefix@.is_prefix_of(text@),
{
    let have = chars_of(text);
    let want = chars_of(prefix);
    if have.len() < want.len() {
        return false;
    }
    let mut i: usize = 0;
    while i < want.len()
        invariant
            i <= want@.len() <= have@.len(),
            have@ == text@,
            want@ == prefix@,
            forall|j: int| 0 <= j < i ==> have@[j] == want@[j],
        decreases want@.len() - i,
    {
        if have[i] != want[i] {
            assert(text@.subrange(0, prefix@.len() as int)[i as int] != prefix@[i as int]);
            return false;
        }
        i = i + 1;
    }
    assert(text@.subrange(0, prefix@.len() as int) =~= prefix@);
    true
}

/// Whether a directory entry of this name is a thermal zone: its name
/// begins with `thermal_zone`.
pub fn is_thermal_zone(file_name: &str) -> (r: bool)
    ensures
        r == is_zone_entry(file_name@),
{
    starts_with(file_name, "thermal_zone")
}

/// What the attribute files of one zone's directory held. An attribute is
/// `None` where its file could not be read.
#[derive(Clone, Debug, PartialEq, Eq)]
pub struct ZoneFiles {
    /// The content of the label file.
    pub label: Option<String>,
    /// The content of the mode file.
    pub mode: Option<String>,
    /// The content of the reading file: the temperature in thousandths of a
    /// degree Celsius, in decimal notation.
    pub temp: Option<String>,
}

/// One entry of the thermal directory: its name and, where the name is that
/// of a thermal zone, what its attribute files held.
#[derive(Clone, Debug, PartialEq, Eq)]
pub struct ZoneEntry {
    /// The entry's name within the directory.
    pub file_name: String,
    /// What the attribute files held.
    pub files: ZoneFiles,
}

/// The characters of a file's content, if the file was read.
pub open spec fn content_of(file: Option<String>) -> Option<Seq<char>> {
    match file {
        Some(text) => Some(text@),
        None => None,
    }
}

/// A zone's attribute files as contracts see them.
pub struct ZoneFilesView {
    pub label: Option<Seq<char>>,
    pub mode: Option<Seq<char>>,
    pub temp: Option<Seq<char>>,
}

impl View for ZoneFiles {
    type V = ZoneFilesView;

    open spec fn view(&self) -> ZoneFilesView {
        ZoneFilesView {
            label: content_of(self.label),
            mode: content_of(self.mode),
            temp: content_of(self.temp),
        }
    }
}

/// A directory entry as contracts see it.
pub struct ZoneEntryView {
    pub file_name: Seq<char>,
    pub files: ZoneFilesView,
}

impl View for ZoneEntry {
    type V = ZoneEntryView;

    open spec fn view(&self) -> ZoneEntryView {
        ZoneEntryView { file_name: self.file_name@, files: self.files@ }
    }
}

/// A place in a listing as contracts see it: the entry, if it could be read.
pub open spec fn entry_of(entry: Option<ZoneEntry>) -> Option<ZoneEntryView> {
    match entry {
        Some(e) => Some(e@),
        None => None,
    }
}

/// A listing's entries as contracts see them, in the same order.
pub open spec fn entries_of(entries: Seq<Option<ZoneEntry>>) -> Seq<Option<ZoneEntryView>> {
    entries.map_values(|e: Option<ZoneEntry>| entry_of(e))
}

/// The thermal directory as contracts see it: its listing, if it could be
/// listed.
pub open spec fn listing_of(listing: Option<Vec<Option<ZoneEntry>>>) -> Option<
    Seq<Option<ZoneEntryView>>,
> {
    match listing {
        Some(entries) => Some(entries_of(entries@)),
        None => None,
    }
}

/// What a mode file says of its zone: enabled if, white space at either end
/// aside, it holds the word `enabled`; disabled if it holds anything else;
/// unknown if it could not be read.
pub open spec fn enablement_of(mode: Option<Seq<char>>) -> Enablement {
    match mode {
        Some(text) => if trimmed(text) == enabled_mode() {
            Enablement::Enabled
        } else {
            Enablement::Disabled
        },
        None => Enablement::Unknown,
    }
}

/// The number that an attribute file holds: the whole part of what its
/// content writes, white space at either end aside, if the file was read and
/// writes a number in decimal notation. For a reading file this is the
/// temperature in whole thousandths of a degree Celsius.
pub open spec fn number_of(file: Option<Seq<char>>) -> Option<i64> {
    match file {
        Some(text) => parsed_number(trimmed(text)),
        None => None,
    }
}

/// The zone that a directory's attribute files describe. There is none
/// where the label could not be read; a mode or a reading that could not be
/// had leaves the zone in place, without that attribute.
pub open spec fn zone_of(files: ZoneFilesView) -> Option<ZoneView> {
    match files.label {
        Some(label) => Some(
            ZoneView {
                name: trimmed(label),
                enabled: enablement_of(files.mode),
                temperature: number_of(files.temp),
            },
        ),
        None => None,
    }
}

/// The zones that one place in a listing contributes to a snapshot: the
/// zone that the entry's files describe, if the entry could be read and is
/// named as a thermal zone; else none.
pub open spec fn entry_zones(entry: Option<ZoneEntryView>) -> Seq<ZoneView> {
    match entry {
        Some(e) => if is_zone_entry(e.file_name) {
            match zone_of(e.files) {
                Some(zone) => seq![zone],
                None => Seq::empty(),
            }
        } else {
            Seq::empty()
        },
        None => Seq::empty(),
    }
}

/// The zones of a directory listing, in the listing's order.
pub open spec fn listed_zones(entries: Seq<Option<ZoneEntryView>>) -> Seq<ZoneView>
    decreases entries.len(),
{
    if entries.len() == 0 {
        Seq::empty()
    } else {
        listed_zones(entries.drop_last()) + entry_zones(entries.last())
    }
}

/// The zones of a sampling pass: those of the listing, or none at all where
/// the thermal directory could not be listed.
pub open spec fn sampled_zones(listing: Option<Seq<Option<ZoneEntryView>>>) -> Seq<ZoneView> {
    match listing {
        Some(entries) => listed_zones(entries),
        None => Seq::empty(),
    }
}

/// Reads what a mode file says of its zone.
pub fn read_enablement(mode: &Option<String>) -> (r: Enablement)
    ensures
        r == enablement_of(content_of(*mode)),
{
    match mode {
        Some(text) => {
            if same_text(trim(text.as_str()), "enabled") {
                Enablement::Enabled
            } else {
                Enablement::Disabled
            }
        },
        None => Enablement::Unknown,
    }
}

/// Reads the number that an attribute file holds.
pub fn read_number(file: &Option<String>) -> (r: Option<i64>)
    ensures
        r == number_of(content_of(*file)),
{
    match file {
        Some(text) => parse_number(trim(text.as_str())),
        None => None,
    }
}

/// Builds the zone that a directory's attribute files describe.
pub fn get_thermal_zone(files: &ZoneFiles) -> (r: Option<ThermalZone>)
    ensures
        files.label is Some <==> r is Some,
        match r {
            Some(zone) => zone_of(files@) == Some(zone@),
            None => zone_of(files@) is None,
        },
{
    match &files.label {
        Some(label) => {
            let name: String = trim(label.as_str()).to_owned();
            let enabled = read_enablement(&files.mode);
            let temperature = read_number(&files.temp);
            Some(ThermalZone { name, enabled, temperature })
        },
        None => None,
    }
}

/// Builds the zones of a sampling pass from the listing of the thermal
/// directory, `None` standing for a directory that could not be listed and,
/// within the listing, for an entry that could not be read.
pub fn read_temperatures(listing: &Option<Vec<Option<ZoneEntry>>>) -> (r: Vec<ThermalZone>)
    ensures
        zone_views(r@) == sampled_zones(listing_of(*listing)),
{
    let mut res: Vec<ThermalZone> = Vec::new();
    if let Some(entries) = listing {
        let ghost all = entries_of(entries@);
        let len: usize = entries.len();
        let mut i: usize = 0;
        assert(zone_views(res@) =~= listed_zones(all.take(0)));
        while i < len
            invariant
                i <= len,
                len == entries@.len(),
                all == entries_of(entries@),
                zone_views(res@) == listed_zones(all.take(i as int)),
            decreases len - i,
        {
            let ghost before = zone_views(res@);
            proof {
                assert(all.take(i + 1).drop_last() =~= all.take(i as int));
                assert(all.take(i + 1).last() == entry_of(entries@[i as int]));
            }
            if let Some(entry) = &entries[i] {
                if is_thermal_zone(entry.file_name.as_str()) {
                    if let Some(zone) = get_thermal_zone(&entry.files) {
                        res.push(zone);
                        assert(zone_views(res@) =~= before + seq![zone@]);
                    }
                }
            }
            assert(zone_views(res@) =~= before + entry_zones(all[i as int]));
            i = i + 1;
        }
        assert(all.take(len as int) =~= all);
    } else {
        assert(zone_views(res@) =~= Seq::<ZoneView>::empty());
    }
    res
}

/// Reads the load of the graphics processor, in tenths of a percent, from
/// the content of its file.
pub fn read_gpu_load(file: &Option<String>) -> (r: Option<i64>)
    ensures
        r == number_of(content_of(*file)),
{
    read_number(file)
}

/// Builds the snapshot of one sampling pass from what was read of the
/// thermal directory and of the graphics processor's load.
pub fn take_snapshot(
    listing: &Option<Vec<Option<ZoneEntry>>>,
    gpu_load_file: &Option<String>,
) -> (r: SystemInfo)
    ensures
        r@.zones == sampled_zones(listing_of(*listing)),
        r@.gpu_load == number_of(content_of(*gpu_load_file)),
{
    SystemInfo { temperatures: read_temperatures(listing), gpu_load: read_gpu_load(gpu_load_file) }
}

} // verus!
