//! Hardware monitoring: what the kernel's hwmon and drm trees say about
//! sensors, fan headers and graphics cards, and what may be done with them.

pub mod aio;
pub mod chip_db;
pub mod classify;
pub mod cooling_device;
pub mod device_policy;
pub mod discovery;
pub mod gigabyte_siv;
pub mod gpu_detect;
pub mod gpu_fan;
pub mod handback;
pub mod header_caps;
pub mod intel_gpu_detect;
pub mod inventory;
pub mod kernel_warnings;
pub mod lease;
pub mod pci;
pub mod pwm_control;
pub mod reader;
pub mod types;
pub mod util;

use crate::hwmon::reader::read_temp;
use crate::hwmon::types::{SensorDescriptor, SensorReading};
use crate::text;
use crate::text::{ends_with, starts_with, str_eq};
use vstd::prelude::*;

verus! {

/// Where the kernel shows its hwmon devices.
pub const HWMON_SYSFS_ROOT: &'static str = "/sys/class/hwmon";

/// A sensor that could not be read.
#[derive(Debug)]
pub struct SensorReadFailure {
    /// Stable sensor id.
    pub id: String,
    /// The label of the sensor.
    pub label: String,
    /// Why the read failed.
    pub reason: String,
}

impl Clone for SensorReadFailure {
    fn clone(&self) -> (r: Self)
        ensures
            r == *self,
    {
        SensorReadFailure {
            id: self.id.clone(),
            label: self.label.clone(),
            reason: self.reason.clone(),
        }
    }
}

/// What reading a set of sensors gave.
#[derive(Debug)]
pub struct SensorReadOutcome {
    /// The sensors that were read.
    pub readings: Vec<SensorReading>,
    /// The sensors that could not be read.
    pub failures: Vec<SensorReadFailure>,
}

/// Whether the readings are those that the sensors at the positions give.
pub open spec fn readings_match(
    readings: Seq<SensorReading>,
    ds: Seq<SensorDescriptor>,
    contents: Seq<Result<String, String>>,
    positions: Seq<int>,
) -> bool {
    &&& readings.len() == positions.len()
    &&& forall|i: int|
        0 <= i < positions.len() ==> #[trigger] reader::is_reading(
            readings[i],
            ds[positions[i]],
            reader::stated_temp(contents[positions[i]])->0,
        )
}

/// Whether the failures are those that the sensors at the positions give.
pub open spec fn failures_match(
    failures: Seq<SensorReadFailure>,
    ds: Seq<SensorDescriptor>,
    contents: Seq<Result<String, String>>,
    positions: Seq<int>,
) -> bool {
    &&& failures.len() == positions.len()
    &&& forall|i: int|
        0 <= i < positions.len() ==> #[trigger] is_failure(
            failures[i],
            ds[positions[i]],
            contents[positions[i]],
        )
}

/// Whether a failure is the one that a sensor's text gives: it has the sensor's id and
/// label, and says what went wrong.
pub open spec fn is_failure(
    f: SensorReadFailure,
    d: SensorDescriptor,
    content: Result<String, String>,
) -> bool {
    &&& f.id@ == d.id@
    &&& f.label@ == d.label@
    &&& f.reason@ == "read error: "@ + d.input_path@ + ": "@ + reader::fault_of(content)
}

/// The positions of the texts that state a temperature, or of those that do not, in
/// order.
pub open spec fn read_positions(contents: Seq<Result<String, String>>, ok: bool) -> Seq<int>
    decreases contents.len(),
{
    if contents.len() == 0 {
        Seq::empty()
    } else {
        let before = read_positions(contents.drop_last(), ok);
        if reader::stated_temp(contents.last()) is Some == ok {
            before.push(contents.len() - 1)
        } else {
            before
        }
    }
}

/// Whether every position is below `n`.
spec fn in_range(positions: Seq<int>, n: int) -> bool {
    forall|i: int| 0 <= i < positions.len() ==> 0 <= #[trigger] positions[i] < n
}

/// Reads the temperatures of a set of sensors. `contents` holds what the input file of
/// each sensor gave: its text, or why it could not be read.
///
/// No failure is dropped: what to make of it is for the caller to say.
pub fn read_sensor_values(
    descriptors: &Vec<SensorDescriptor>,
    contents: &Vec<Result<String, String>>,
) -> (r: SensorReadOutcome)
    requires
        descriptors@.len() == contents@.len(),
    ensures
        readings_match(r.readings@, descriptors@, contents@, read_positions(contents@, true)),
        failures_match(r.failures@, descriptors@, contents@, read_positions(contents@, false)),
{
    let mut readings: Vec<SensorReading> = Vec::new();
    let mut failures: Vec<SensorReadFailure> = Vec::new();
    let mut i: usize = 0;
    while i < descriptors.len()
        invariant
            i <= descriptors.len(),
            descriptors@.len() == contents@.len(),
            in_range(read_positions(contents@.take(i as int), true), i as int),
            in_range(read_positions(contents@.take(i as int), false), i as int),
            readings_match(
                readings@,
                descriptors@,
                contents@,
                read_positions(contents@.take(i as int), true),
            ),
            failures_match(
                failures@,
                descriptors@,
                contents@,
                read_positions(contents@.take(i as int), false),
            ),
        decreases descriptors.len() - i,
    {
        let d: &SensorDescriptor = &descriptors[i];
        proof {
            assert(contents@.take(i + 1).drop_last() =~= contents@.take(i as int));
            assert(contents@.take(i + 1).last() == contents@[i as int]);
        }
        match read_temp(d, &contents[i]) {
            Ok(reading) => {
                readings.push(reading);
            },
            Err(e) => {
                failures.push(
                    SensorReadFailure {
                        id: d.id.clone(),
                        label: d.label.clone(),
                        reason: e.describe(),
                    },
                );
            },
        }
        i += 1;
    }
    assert(contents@.take(i as int) =~= contents@);
    SensorReadOutcome { readings, failures }
}

/// Whether a chip name is that of a radio's temperature sensor.
pub open spec fn names_radio(chip_name: Seq<char>) -> bool {
    ||| text::starts(chip_name, "ath"@) && text::ends(chip_name, "_hwmon"@)
    ||| text::starts(chip_name, "iwlwifi"@)
    ||| text::starts(chip_name, "iwlmvm"@)
}

/// Whether a chip is the temperature sensor of a radio. It cannot be read while the
/// radio is off, so no fan curve may depend on it.
pub fn is_wireless_phy_chip(chip_name: &str) -> (r: bool)
    ensures
        r == names_radio(chip_name@),
{
    (starts_with(chip_name, "ath") && ends_with(chip_name, "_hwmon")) || starts_with(
        chip_name,
        "iwlwifi",
    ) || starts_with(chip_name, "iwlmvm")
}

/// Whether the fans of a chip belong to a graphics card.
pub open spec fn names_gpu_owned(chip_name: Seq<char>) -> bool {
    chip_name == "amdgpu"@ || chip_name == "nouveau"@
}

/// Whether the fans of a chip belong to a graphics card. They are never treated as fan
/// headers of the board.
pub fn is_gpu_owned_hwmon_chip(chip_name: &str) -> (r: bool)
    ensures
        r == names_gpu_owned(chip_name@),
{
    str_eq(chip_name, "amdgpu") || str_eq(chip_name, "nouveau")
}

/// Every sensor is accounted for: each gives a reading or a failure, never both, and in the
/// order of the sensors.
pub proof fn every_sensor_is_read_or_fails(contents: Seq<Result<String, String>>, i: int)
    requires
        0 <= i < contents.len(),
    ensures
        read_positions(contents, true).contains(i) <==> reader::stated_temp(contents[i]) is Some,
        read_positions(contents, false).contains(i) <==> reader::stated_temp(contents[i]) is None,
        read_positions(contents, true).len() + read_positions(contents, false).len()
            == contents.len(),
    decreases contents.len(),
{
    let front = contents.drop_last();
    lemma_positions(front, true);
    lemma_positions(front, false);
    lemma_positions(contents, true);
    lemma_positions(contents, false);
    let yes = read_positions(contents, true);
    let no = read_positions(contents, false);
    let y = read_positions(front, true);
    let n = read_positions(front, false);
    if i < front.len() {
        every_sensor_is_read_or_fails(front, i);
        assert(front[i] == contents[i]);
        if y.contains(i) {
            let k = choose|k: int| 0 <= k < y.len() && y[k] == i;
            assert(yes[k] == i);
        }
        if n.contains(i) {
            let k = choose|k: int| 0 <= k < n.len() && n[k] == i;
            assert(no[k] == i);
        }
    } else {
        if front.len() > 0 {
            every_sensor_is_read_or_fails(front, 0);
        }
        if reader::stated_temp(contents[i]) is Some {
            assert(yes[y.len() as int] == i);
        } else {
            assert(no[n.len() as int] == i);
        }
    }
}

proof fn lemma_positions(contents: Seq<Result<String, String>>, ok: bool)
    ensures
        forall|k: int|
            0 <= k < read_positions(contents, ok).len() ==> 0 <= #[trigger] read_positions(
                contents,
                ok,
            )[k] < contents.len() && (reader::stated_temp(
                contents[read_positions(contents, ok)[k]],
            ) is Some) == ok,
    decreases contents.len(),
{
    if contents.len() > 0 {
        let front = contents.drop_last();
        lemma_positions(front, ok);
        assert forall|k: int| 0 <= k < read_positions(contents, ok).len() implies 0
            <= #[trigger] read_positions(contents, ok)[k] < contents.len() && (reader::stated_temp(
            contents[read_positions(contents, ok)[k]],
        ) is Some) == ok by {
            if k < read_positions(front, ok).len() {
                let p = read_positions(front, ok)[k];
                assert(read_positions(contents, ok)[k] == p);
                assert(front[p] == contents[p]);
            }
        }
    }
}

/// The chips of Atheros and Intel radios are known by their names, whatever stands between
/// `ath` and `_hwmon` or behind `iwlwifi` and `iwlmvm`.
pub proof fn radios_are_known_by_their_names(rest: Seq<char>, chip_name: Seq<char>)
    ensures
        names_radio("ath"@ + rest + "_hwmon"@),
        names_radio("iwlwifi"@ + rest),
        names_radio("iwlmvm"@ + rest),
        names_radio(chip_name) ==> text::starts(chip_name, "ath"@) || text::starts(
            chip_name,
            "iwlwifi"@,
        ) || text::starts(chip_name, "iwlmvm"@),
        names_radio(chip_name) && text::starts(chip_name, "ath"@) && !text::starts(
            chip_name,
            "iwlwifi"@,
        ) && !text::starts(chip_name, "iwlmvm"@) ==> text::ends(chip_name, "_hwmon"@),
{
    text::a_pattern_is_found_where_it_was_put("ath"@ + rest, "_hwmon"@, Seq::empty());
    text::a_pattern_is_found_where_it_was_put(Seq::empty(), "ath"@, rest + "_hwmon"@);
    assert("ath"@ + rest + "_hwmon"@ =~= "ath"@ + (rest + "_hwmon"@));
    text::a_pattern_is_found_where_it_was_put(Seq::empty(), "iwlwifi"@, rest);
    text::a_pattern_is_found_where_it_was_put(Seq::empty(), "iwlmvm"@, rest);
}

/// The fans of `amdgpu` and `nouveau` belong to a graphics card, and of no other chip.
pub proof fn fans_of_cards_are_known(chip_name: Seq<char>)
    ensures
        names_gpu_owned(chip_name) <==> chip_name == "amdgpu"@ || chip_name == "nouveau"@,
{
}

/// What comes of reading sensors: the sensor whose text states a temperature has a reading
/// with its own id, label, kind and source and with that temperature, and the sensor whose
/// text does not has a failure with its own id and label that names its file.
pub proof fn each_sensor_has_its_own_outcome(
    readings: Seq<SensorReading>,
    failures: Seq<SensorReadFailure>,
    ds: Seq<SensorDescriptor>,
    contents: Seq<Result<String, String>>,
    i: int,
)
    requires
        ds.len() == contents.len(),
        0 <= i < ds.len(),
        readings_match(readings, ds, contents, read_positions(contents, true)),
        failures_match(failures, ds, contents, read_positions(contents, false)),
    ensures
        readings.len() + failures.len() == ds.len(),
        reader::stated_temp(contents[i]) matches Some(t) ==> exists|k: int|
            0 <= k < readings.len() && (#[trigger] readings[k]).id@ == ds[i].id@
                && readings[k].label@ == ds[i].label@ && readings[k].kind == ds[i].kind
                && readings[k].source == ds[i].source && readings[k].value_mc == t,
        reader::stated_temp(contents[i]) is None ==> exists|k: int|
            0 <= k < failures.len() && (#[trigger] failures[k]).id@ == ds[i].id@
                && failures[k].label@ == ds[i].label@ && failures[k].reason@ == "read error: "@
                + ds[i].input_path@ + ": "@ + reader::fault_of(contents[i]),
{
    every_sensor_is_read_or_fails(contents, i);
    let ok = reader::stated_temp(contents[i]) is Some;
    let at = read_positions(contents, ok);
    assert(at.contains(i));
    let k = choose|k: int| 0 <= k < at.len() && at[k] == i;
    if ok {
        assert(reader::is_reading(
            readings[k],
            ds[at[k]],
            reader::stated_temp(contents[at[k]])->0,
        ));
        assert(readings[k].id@ == ds[i].id@);
    } else {
        assert(is_failure(failures[k], ds[at[k]], contents[at[k]]));
        assert(failures[k].id@ == ds[i].id@);
    }
}

} // verus!
