//! A finer class for a temperature sensor, and which sensor stands for the processor.
//!
//! The class refines what discovery says a sensor measures and never contradicts it.
//! It is advice: thermal safety goes by the coarse kind alone.

use crate::hwmon::discovery;
use crate::hwmon::discovery::classify_chip;
use crate::hwmon::types::SensorKind;
use crate::text;
use crate::text::{comes_before, contains, decimal_of, lowercase, starts_with, str_eq};
use vstd::prelude::*;
use vstd::string::*;
use vstd::utf8::*;

verus! {

/// The class of a temperature sensor.
#[derive(Debug, Clone, Copy, PartialEq, Eq, Structural)]
pub enum TempClass {
    CpuPackage,
    CpuCore,
    CpuTctl,
    CpuTdie,
    MotherboardTemp,
    VrmTemp,
    ChipsetTemp,
    GpuTemp,
    DiskTemp,
    CoolantTemp,
    UnknownTemp,
}

impl TempClass {
    /// The word for the class.
    pub open spec fn word(self) -> Seq<char> {
        match self {
            TempClass::CpuPackage => "cpu_package"@,
            TempClass::CpuCore => "cpu_core"@,
            TempClass::CpuTctl => "cpu_tctl"@,
            TempClass::CpuTdie => "cpu_tdie"@,
            TempClass::MotherboardTemp => "motherboard_temp"@,
            TempClass::VrmTemp => "vrm_temp"@,
            TempClass::ChipsetTemp => "chipset_temp"@,
            TempClass::GpuTemp => "gpu_temp"@,
            TempClass::DiskTemp => "disk_temp"@,
            TempClass::CoolantTemp => "coolant_temp"@,
            TempClass::UnknownTemp => "unknown_temp"@,
        }
    }

    /// The word for the class.
    pub fn as_str(self) -> (r: &'static str)
        ensures
            r@ == self.word(),
    {
        match self {
            TempClass::CpuPackage => "cpu_package",
            TempClass::CpuCore => "cpu_core",
            TempClass::CpuTctl => "cpu_tctl",
            TempClass::CpuTdie => "cpu_tdie",
            TempClass::MotherboardTemp => "motherboard_temp",
            TempClass::VrmTemp => "vrm_temp",
            TempClass::ChipsetTemp => "chipset_temp",
            TempClass::GpuTemp => "gpu_temp",
            TempClass::DiskTemp => "disk_temp",
            TempClass::CoolantTemp => "coolant_temp",
            TempClass::UnknownTemp => "unknown_temp",
        }
    }
}

/// How sure the class is.
#[derive(Debug, Clone, Copy, PartialEq, Eq, Structural)]
pub enum Confidence {
    High,
    Medium,
    Low,
    Unknown,
}

impl Confidence {
    /// The word for the confidence.
    pub open spec fn word(self) -> Seq<char> {
        match self {
            Confidence::High => "high"@,
            Confidence::Medium => "medium"@,
            Confidence::Low => "low"@,
            Confidence::Unknown => "unknown"@,
        }
    }

    /// The word for the confidence.
    pub fn as_str(self) -> (r: &'static str)
        ensures
            r@ == self.word(),
    {
        match self {
            Confidence::High => "high",
            Confidence::Medium => "medium",
            Confidence::Low => "low",
            Confidence::Unknown => "unknown",
        }
    }

    /// A number for the confidence; more sure is higher.
    pub open spec fn level(self) -> u8 {
        match self {
            Confidence::High => 3,
            Confidence::Medium => 2,
            Confidence::Low => 1,
            Confidence::Unknown => 0,
        }
    }

    fn score(self) -> (r: u8)
        ensures
            r == self.level(),
    {
        match self {
            Confidence::High => 3,
            Confidence::Medium => 2,
            Confidence::Low => 1,
            Confidence::Unknown => 0,
        }
    }
}

/// The class of a sensor, how sure it is, and why.
#[derive(Debug)]
pub struct TempClassification {
    pub class: TempClass,
    pub confidence: Confidence,
    pub rationale: String,
}

/// What a classification says.
#[verifier::ext_equal]
pub struct ClassificationView {
    pub class: TempClass,
    pub confidence: Confidence,
    pub rationale: Seq<char>,
}

impl View for TempClassification {
    type V = ClassificationView;

    open spec fn view(&self) -> ClassificationView {
        ClassificationView {
            class: self.class,
            confidence: self.confidence,
            rationale: self.rationale@,
        }
    }
}

impl Clone for TempClassification {
    fn clone(&self) -> (r: Self)
        ensures
            r == *self,
    {
        TempClassification {
            class: self.class,
            confidence: self.confidence,
            rationale: self.rationale.clone(),
        }
    }
}

impl TempClassification {
    /// A classification.
    pub fn new(class: TempClass, confidence: Confidence, rationale: &str) -> (r: Self)
        ensures
            r@ == (ClassificationView { class, confidence, rationale: rationale@ }),
    {
        TempClassification { class, confidence, rationale: rationale.to_owned() }
    }
}

// ---------------------------------------------------------------------------
// Classes
// ---------------------------------------------------------------------------

/// Whether a chip is a motherboard's Super-I/O monitor: the Nuvoton and ITE families.
pub open spec fn is_superio(chip: Seq<char>) -> bool {
    text::starts(chip, "nct6"@) || text::starts(chip, "it8"@)
}

/// The class of a processor sensor by its label in small letters, and the words for it.
pub open spec fn cpu_class(l: Seq<char>) -> (TempClass, Seq<char>) {
    if text::holds(l, "tctl"@) {
        (TempClass::CpuTctl, "Tctl control temperature"@)
    } else if text::holds(l, "tdie"@) {
        (TempClass::CpuTdie, "Tdie die temperature"@)
    } else if text::holds(l, "tccd"@) {
        (TempClass::CpuCore, "Tccd core-complex-die temperature"@)
    } else if text::holds(l, "core"@) {
        (TempClass::CpuCore, "per-core temperature"@)
    } else if text::holds(l, "package"@) {
        (TempClass::CpuPackage, "package temperature"@)
    } else {
        (TempClass::CpuPackage, "CPU temperature"@)
    }
}

/// How sure a processor sensor of a chip is, and the words for it.
pub open spec fn cpu_authority(chip: Seq<char>) -> (Confidence, Seq<char>) {
    if chip == "k10temp"@ || chip == "coretemp"@ || chip == "sbtsi_temp"@ {
        (Confidence::High, "authoritative CPU sensor"@)
    } else if is_superio(chip) {
        (Confidence::Medium, "motherboard Super-I/O CPU reading"@)
    } else {
        (Confidence::Low, "inferred from the label on an unrecognised chip"@)
    }
}

/// The classification of a processor sensor.
pub open spec fn refined_cpu(chip: Seq<char>, l: Seq<char>) -> ClassificationView {
    ClassificationView {
        class: cpu_class(l).0,
        confidence: cpu_authority(chip).0,
        rationale: chip + " "@ + cpu_class(l).1 + " — "@ + cpu_authority(chip).1,
    }
}

/// Whether a chip is known to be a motherboard's.
pub open spec fn is_known_board_chip(chip: Seq<char>) -> bool {
    ||| is_superio(chip)
    ||| chip == "asus_ec_sensors"@
    ||| chip == "asus_wmi_sensors"@
    ||| chip == "gigabyte_wmi"@
}

/// The classification of a motherboard sensor by its label in small letters. A sensor
/// that only counts as the motherboard's because nothing is known of it has no class.
pub open spec fn refined_mb(chip: Seq<char>, l: Seq<char>) -> ClassificationView {
    let by_label = if is_known_board_chip(chip) {
        Confidence::Medium
    } else {
        Confidence::Low
    };
    if text::holds(l, "vrm"@) {
        ClassificationView {
            class: TempClass::VrmTemp,
            confidence: by_label,
            rationale: "VRM temperature (by label)"@,
        }
    } else if text::holds(l, "pch"@) || text::holds(l, "chipset"@) {
        ClassificationView {
            class: TempClass::ChipsetTemp,
            confidence: by_label,
            rationale: "chipset / PCH temperature (by label)"@,
        }
    } else if is_known_board_chip(chip) {
        ClassificationView {
            class: TempClass::MotherboardTemp,
            confidence: Confidence::Medium,
            rationale: "motherboard temperature"@,
        }
    } else {
        ClassificationView {
            class: TempClass::UnknownTemp,
            confidence: Confidence::Unknown,
            rationale: "unrecognised chip with no classifying label"@,
        }
    }
}

/// The classification of a sensor.
pub open spec fn refined(chip_name: Seq<char>, label: Seq<char>) -> ClassificationView {
    match discovery::kind_of(chip_name, label) {
        SensorKind::CpuTemp => refined_cpu(chip_name, text::lower(label)),
        SensorKind::MbTemp => refined_mb(chip_name, text::lower(label)),
        SensorKind::GpuTemp => ClassificationView {
            class: TempClass::GpuTemp,
            confidence: Confidence::High,
            rationale: "discrete-GPU temperature"@,
        },
        SensorKind::DiskTemp => ClassificationView {
            class: TempClass::DiskTemp,
            confidence: Confidence::High,
            rationale: "storage-device temperature"@,
        },
        SensorKind::CoolantTemp => ClassificationView {
            class: TempClass::CoolantTemp,
            confidence: Confidence::High,
            rationale: "liquid-cooler coolant temperature"@,
        },
    }
}

/// The classification of a sensor by its chip and its label.
pub fn classify_temp_sensor(chip_name: &str, label: &str) -> (r: TempClassification)
    ensures
        r@ == refined(chip_name@, label@),
{
    let l: String = lowercase(label);
    match classify_chip(chip_name, label) {
        SensorKind::CpuTemp => refine_cpu(chip_name, l.as_str()),
        SensorKind::MbTemp => refine_mb(chip_name, l.as_str()),
        SensorKind::GpuTemp => TempClassification::new(
            TempClass::GpuTemp,
            Confidence::High,
            "discrete-GPU temperature",
        ),
        SensorKind::DiskTemp => TempClassification::new(
            TempClass::DiskTemp,
            Confidence::High,
            "storage-device temperature",
        ),
        SensorKind::CoolantTemp => TempClassification::new(
            TempClass::CoolantTemp,
            Confidence::High,
            "liquid-cooler coolant temperature",
        ),
    }
}

fn is_superio_chip(chip: &str) -> (r: bool)
    ensures
        r == is_superio(chip@),
{
    starts_with(chip, "nct6") || starts_with(chip, "it8")
}

fn refine_cpu(chip: &str, l: &str) -> (r: TempClassification)
    ensures
        r@ == refined_cpu(chip@, l@),
{
    let (class, what): (TempClass, &'static str) = if contains(l, "tctl") {
        (TempClass::CpuTctl, "Tctl control temperature")
    } else if contains(l, "tdie") {
        (TempClass::CpuTdie, "Tdie die temperature")
    } else if contains(l, "tccd") {
        (TempClass::CpuCore, "Tccd core-complex-die temperature")
    } else if contains(l, "core") {
        (TempClass::CpuCore, "per-core temperature")
    } else if contains(l, "package") {
        (TempClass::CpuPackage, "package temperature")
    } else {
        (TempClass::CpuPackage, "CPU temperature")
    };
    let (confidence, src): (Confidence, &'static str) = if str_eq(chip, "k10temp") || str_eq(
        chip,
        "coretemp",
    ) || str_eq(chip, "sbtsi_temp") {
        (Confidence::High, "authoritative CPU sensor")
    } else if is_superio_chip(chip) {
        (Confidence::Medium, "motherboard Super-I/O CPU reading")
    } else {
        (Confidence::Low, "inferred from the label on an unrecognised chip")
    };
    let mut rationale: String = chip.to_owned();
    rationale.append(" ");
    rationale.append(what);
    rationale.append(" — ");
    rationale.append(src);
    TempClassification { class, confidence, rationale }
}

fn refine_mb(chip: &str, l: &str) -> (r: TempClassification)
    ensures
        r@ == refined_mb(chip@, l@),
{
    let known_mobo: bool = is_superio_chip(chip) || str_eq(chip, "asus_ec_sensors") || str_eq(
        chip,
        "asus_wmi_sensors",
    ) || str_eq(chip, "gigabyte_wmi");
    let by_label: Confidence = if known_mobo {
        Confidence::Medium
    } else {
        Confidence::Low
    };
    if contains(l, "vrm") {
        TempClassification::new(TempClass::VrmTemp, by_label, "VRM temperature (by label)")
    } else if contains(l, "pch") || contains(l, "chipset") {
        TempClassification::new(
            TempClass::ChipsetTemp,
            by_label,
            "chipset / PCH temperature (by label)",
        )
    } else if known_mobo {
        TempClassification::new(
            TempClass::MotherboardTemp,
            Confidence::Medium,
            "motherboard temperature",
        )
    } else {
        TempClassification::new(
            TempClass::UnknownTemp,
            Confidence::Unknown,
            "unrecognised chip with no classifying label",
        )
    }
}

// ---------------------------------------------------------------------------
// The default processor sensor
// ---------------------------------------------------------------------------

/// Which sensor stands for the processor, how sure that is, and why.
#[derive(Debug)]
pub struct DefaultCpuRecommendation {
    pub sensor_id: String,
    pub confidence: Confidence,
    pub rationale: String,
}

/// How well a class stands for the processor; lower is better. `None` for a class that
/// is not the processor's.
pub open spec fn class_rank(class: TempClass) -> Option<u8> {
    match class {
        TempClass::CpuTctl => Some(0),
        TempClass::CpuPackage => Some(1),
        TempClass::CpuTdie => Some(2),
        TempClass::CpuCore => Some(3),
        _ => None,
    }
}

fn cpu_class_rank(class: TempClass) -> (r: Option<u8>)
    ensures
        r == class_rank(class),
{
    match class {
        TempClass::CpuTctl => Some(0),
        TempClass::CpuPackage => Some(1),
        TempClass::CpuTdie => Some(2),
        TempClass::CpuCore => Some(3),
        _ => None,
    }
}

/// Whether a class is the processor's.
pub fn is_cpu_class(class: TempClass) -> (r: bool)
    ensures
        r == (class_rank(class) is Some),
{
    cpu_class_rank(class).is_some()
}

/// A sensor id with its classification.
pub type Classified<'a> = (&'a str, &'a TempClassification);

/// Whether a sensor is the processor's.
pub open spec fn is_candidate(c: Classified) -> bool {
    class_rank(c.1.class) is Some
}

/// Whether a candidate is to be preferred to another: the better class first, then the
/// higher confidence, then the id that comes first.
pub open spec fn is_preferred(a: Classified, b: Classified) -> bool {
    let (p, q) = (class_rank(a.1.class)->0, class_rank(b.1.class)->0);
    let (c, d) = (a.1.confidence.level(), b.1.confidence.level());
    p < q || (p == q && (c > d || (c == d && text::precedes(a.0@, b.0@))))
}

/// Whether nothing prefers one of two candidates to the other.
pub open spec fn is_tied(a: Classified, b: Classified) -> bool {
    &&& class_rank(a.1.class) == class_rank(b.1.class)
    &&& a.1.confidence.level() == b.1.confidence.level()
    &&& a.0@ == b.0@
}

/// Whether the sensor at a position stands for the processor: it is preferred to every
/// other candidate, or tied with it and not behind it.
pub open spec fn is_default(all: Seq<Classified>, i: int) -> bool {
    &&& 0 <= i < all.len()
    &&& is_candidate(all[i])
    &&& forall|j: int|
        0 <= j < all.len() && is_candidate(#[trigger] all[j]) ==> is_preferred(all[i], all[j]) || (
        is_tied(all[i], all[j]) && i <= j)
}

/// How many of the sensors are the processor's.
pub open spec fn candidate_count(all: Seq<Classified>) -> nat
    decreases all.len(),
{
    if all.len() == 0 {
        0
    } else {
        candidate_count(all.drop_last()) + (if is_candidate(all.last()) {
            1nat
        } else {
            0
        })
    }
}

/// Why a candidate was taken from among some.
pub open spec fn choice_rationale(c: Classified, total: nat) -> Seq<char> {
    if total == 1 {
        c.1.rationale@ + " — the only CPU temperature candidate"@
    } else {
        c.1.rationale@ + " — selected as the most representative of "@ + text::decimal(total)
            + " CPU temperature candidates"@
    }
}

/// Whether a recommendation names the candidate at a position.
pub open spec fn recommends_at(
    r: DefaultCpuRecommendation,
    all: Seq<Classified>,
    i: int,
) -> bool {
    &&& is_default(all, i)
    &&& r.sensor_id@ == all[i].0@
    &&& r.confidence == all[i].1.confidence
    &&& r.rationale@ == choice_rationale(all[i], candidate_count(all))
}

/// The sensor that stands for the processor, where there is a processor sensor at all.
pub fn select_default_cpu(classified: &Vec<(&str, &TempClassification)>) -> (r: Option<
    DefaultCpuRecommendation,
>)
    ensures
        match r {
            Some(rec) => exists|i: int| #[trigger] recommends_at(rec, classified@, i),
            None => candidate_count(classified@) == 0,
        },
{
    let ghost all = classified@;
    let mut best: Option<usize> = None;
    let mut total: u64 = 0;
    let mut i: usize = 0;
    while i < classified.len()
        invariant
            i <= classified@.len(),
            all == classified@,
            total <= i,
            total == candidate_count(all.take(i as int)),
            match best {
                Some(b) => total > 0 && is_default(all.take(i as int), b as int),
                None => total == 0 && forall|j: int| 0 <= j < i ==> !is_candidate(#[trigger] all[j]),
            },
        decreases classified@.len() - i,
    {
        let c: (&str, &TempClassification) = classified[i];
        proof {
            assert(all.take(i + 1).drop_last() =~= all.take(i as int));
            assert(all.take(i + 1).last() == c);
        }
        if let Some(rank) = cpu_class_rank(c.1.class) {
            total += 1;
            match best {
                None => {
                    best = Some(i);
                    assert(is_default(all.take(i + 1), i as int)) by {
                        assert forall|j: int|
                            0 <= j < i + 1 && is_candidate(#[trigger] all.take(i + 1)[j]) implies j
                            == i by {
                            assert(all.take(i + 1)[j] == all[j]);
                        }
                    }
                },
                Some(b) => {
                    let d: (&str, &TempClassification) = classified[b];
                    let other: u8 = match cpu_class_rank(d.1.class) {
                        Some(x) => x,
                        None => 0,
                    };
                    let (p, q): (u8, u8) = (c.1.confidence.score(), d.1.confidence.score());
                    let better: bool = rank < other || (rank == other && (p > q || (p == q
                        && comes_before(c.0, d.0))));
                    proof {
                        lemma_best_step(all, i as int, b as int);
                    }
                    if better {
                        best = Some(i);
                    }
                },
            }
        } else {
            proof {
                if best is Some {
                    let b = best->0 as int;
                    assert(is_default(all.take(i + 1), b)) by {
                        assert forall|j: int|
                            0 <= j < i + 1 && is_candidate(
                                #[trigger] all.take(i + 1)[j],
                            ) implies is_preferred(all[b], all[j]) || (is_tied(all[b], all[j]) && b
                            <= j) by {
                            assert(all.take(i as int)[j] == all[j]);
                        }
                        assert(all.take(i as int)[b] == all[b]);
                    }
                }
            }
        }
        i += 1;
    }
    assert(all.take(i as int) =~= all);
    match best {
        None => None,
        Some(b) => {
            let c: (&str, &TempClassification) = classified[b];
            let mut rationale: String = c.1.rationale.clone();
            if total == 1 {
                rationale.append(" — the only CPU temperature candidate");
            } else {
                rationale.append(" — selected as the most representative of ");
                rationale.append(decimal_of(total).as_str());
                rationale.append(" CPU temperature candidates");
            }
            let rec = DefaultCpuRecommendation {
                sensor_id: c.0.to_owned(),
                confidence: c.1.confidence,
                rationale,
            };
            assert(recommends_at(rec, classified@, b as int));
            Some(rec)
        },
    }
}

proof fn lemma_best_step(all: Seq<Classified>, i: int, b: int)
    requires
        0 <= i < all.len(),
        is_default(all.take(i), b),
        is_candidate(all[i]),
    ensures
        is_preferred(all[i], all[b]) ==> is_default(all.take(i + 1), i),
        !is_preferred(all[i], all[b]) ==> is_default(all.take(i + 1), b),
{
    let some = all.take(i + 1);
    assert(all.take(i)[b] == all[b]);
    text::precedes_is_total(all[i].0@, all[b].0@);
    assert forall|j: int| 0 <= j < i && is_candidate(#[trigger] some[j]) implies is_preferred(
        all[b],
        all[j],
    ) || (is_tied(all[b], all[j]) && b <= j) by {
        assert(all.take(i)[j] == all[j]);
    }
    if is_preferred(all[i], all[b]) {
        assert forall|j: int| 0 <= j < some.len() && is_candidate(#[trigger] some[j]) implies (
        is_preferred(some[i], some[j]) || (is_tied(some[i], some[j]) && i <= j)) by {
            if j < i {
                lemma_preference_is_transitive(all[i], all[b], all[j]);
            }
        }
    }
}

proof fn lemma_preference_is_transitive(a: Classified, b: Classified, c: Classified)
    requires
        is_preferred(a, b),
        is_preferred(b, c) || is_tied(b, c),
    ensures
        is_preferred(a, c),
{
    if text::precedes(a.0@, b.0@) && text::precedes(b.0@, c.0@) {
        text::precedes_is_transitive(a.0@, b.0@, c.0@);
    }
}

// ---------------------------------------------------------------------------
// Laws
// ---------------------------------------------------------------------------

/// The kind that a class refines.
pub open spec fn refines(class: TempClass) -> SensorKind {
    match class {
        TempClass::CpuPackage => SensorKind::CpuTemp,
        TempClass::CpuCore => SensorKind::CpuTemp,
        TempClass::CpuTctl => SensorKind::CpuTemp,
        TempClass::CpuTdie => SensorKind::CpuTemp,
        TempClass::MotherboardTemp => SensorKind::MbTemp,
        TempClass::VrmTemp => SensorKind::MbTemp,
        TempClass::ChipsetTemp => SensorKind::MbTemp,
        TempClass::UnknownTemp => SensorKind::MbTemp,
        TempClass::GpuTemp => SensorKind::GpuTemp,
        TempClass::DiskTemp => SensorKind::DiskTemp,
        TempClass::CoolantTemp => SensorKind::CoolantTemp,
    }
}

/// The class never contradicts what discovery says a sensor measures.
pub proof fn class_never_contradicts_kind(chip_name: Seq<char>, label: Seq<char>)
    ensures
        refines(refined(chip_name, label).class) == discovery::kind_of(chip_name, label),
{
}

/// The classification does not depend on which of the ASCII letters of a label are
/// capitals, whatever else stands in the label.
pub proof fn the_case_of_a_label_plays_no_part(chip_name: Seq<char>, label: Seq<char>)
    ensures
        refined(chip_name, text::ascii_upper(label)) == refined(chip_name, label),
        refined(chip_name, text::ascii_lower(label)) == refined(chip_name, label),
{
    discovery::the_case_of_a_label_plays_no_part(chip_name, label);
    text::lower_forgets_case(label);
}

/// The choice is determined: no two positions both stand for the processor.
pub proof fn default_is_determined(all: Seq<Classified>, i: int, j: int)
    requires
        is_default(all, i),
        is_default(all, j),
    ensures
        i == j,
{
    text::precedes_is_total(all[i].0@, all[j].0@);
}

/// The choice does not depend on the order in which the sensors are given.
pub proof fn default_does_not_depend_on_order(
    a: Seq<Classified>,
    b: Seq<Classified>,
    i: int,
    j: int,
)
    requires
        is_default(a, i),
        is_default(b, j),
        a.to_multiset() == b.to_multiset(),
    ensures
        a[i].0@ == b[j].0@,
        a[i].1.confidence == b[j].1.confidence,
{
    a.to_multiset_ensures();
    b.to_multiset_ensures();
    assert(a.contains(a[i]) && b.contains(b[j]));
    assert(b.to_multiset().count(b[j]) > 0 && a.to_multiset().count(a[i]) > 0);
    let p = a.index_of(b[j]);
    let q = b.index_of(a[i]);
    assert(a[p] == b[j] && b[q] == a[i]);
    text::precedes_is_total(a[i].0@, b[j].0@);
}

/// The sensor that is recommended is the processor's, and of the best class there is:
/// Tctl before a package temperature, that before Tdie, that before a single core. So a
/// core stands for the processor only where there is nothing else.
pub proof fn the_best_class_is_recommended(
    r: DefaultCpuRecommendation,
    all: Seq<Classified>,
    i: int,
    j: int,
)
    requires
        recommends_at(r, all, i),
        0 <= j < all.len(),
    ensures
        0 <= i < all.len(),
        r.sensor_id@ == all[i].0@,
        r.confidence == all[i].1.confidence,
        ({
            let best = all[i].1.class;
            let other = all[j].1.class;
            &&& best is CpuTctl || best is CpuPackage || best is CpuTdie || best is CpuCore
            &&& other is CpuTctl ==> best is CpuTctl
            &&& other is CpuPackage ==> best is CpuTctl || best is CpuPackage
            &&& other is CpuTdie ==> best is CpuTctl || best is CpuPackage || best is CpuTdie
        }),
{
    assert(is_candidate(all[j]) ==> is_preferred(all[i], all[j]) || is_tied(all[i], all[j]));
}

/// Among the sensors of the best class the surest is recommended, and among those that are
/// equally sure the one whose id comes first.
pub proof fn the_surest_of_a_class_is_recommended(all: Seq<Classified>, i: int, j: int)
    requires
        is_default(all, i),
        0 <= j < all.len(),
        all[j].1.class == all[i].1.class,
    ensures
        ({
            let best = all[i].1.confidence;
            let other = all[j].1.confidence;
            &&& other is High ==> best is High
            &&& other is Medium ==> best is High || best is Medium
            &&& other is Low ==> best is High || best is Medium || best is Low
            &&& other == best ==> all[i].0@ == all[j].0@ || text::precedes(all[i].0@, all[j].0@)
        }),
{
    assert(is_candidate(all[j]));
}

/// There is a recommendation exactly where one of the sensors is the processor's.
pub proof fn every_processor_sensor_is_a_candidate(all: Seq<Classified>)
    ensures
        candidate_count(all) == 0 <==> forall|j: int|
            0 <= j < all.len() ==> {
                let class = (#[trigger] all[j]).1.class;
                !(class is CpuTctl) && !(class is CpuPackage) && !(class is CpuTdie) && !(
                class is CpuCore)
            },
        candidate_count(all) <= all.len(),
    decreases all.len(),
{
    if all.len() > 0 {
        let front = all.drop_last();
        every_processor_sensor_is_a_candidate(front);
        assert forall|j: int| 0 <= j < front.len() implies #[trigger] front[j] == all[j] by {}
        if candidate_count(all) == 0 {
            assert forall|j: int| 0 <= j < all.len() implies {
                let class = (#[trigger] all[j]).1.class;
                !(class is CpuTctl) && !(class is CpuPackage) && !(class is CpuTdie) && !(
                class is CpuCore)
            } by {
                if j < front.len() {
                    assert(front[j] == all[j]);
                }
            }
        } else {
            if candidate_count(front) > 0 {
                let j = choose|j: int| 0 <= j < front.len() && is_candidate(#[trigger] front[j]);
                assert(all[j] == front[j]);
            } else {
                assert(is_candidate(all[all.len() - 1]));
            }
        }
    }
}

/// A sensor more is a candidate more exactly where it is the processor's.
pub proof fn candidates_are_counted(all: Seq<Classified>, c: Classified)
    ensures
        candidate_count(all.push(c)) == candidate_count(all) + (if c.1.class is CpuTctl
            || c.1.class is CpuPackage || c.1.class is CpuTdie || c.1.class is CpuCore {
            1nat
        } else {
            0
        }),
{
    assert(all.push(c).drop_last() =~= all);
}

/// The processor's own drivers are sure, the chips of the board less so, and a label alone
/// least.
pub proof fn the_chip_says_how_sure_a_processor_sensor_is(chip: Seq<char>, label: Seq<char>)
    requires
        discovery::kind_of(chip, label) == SensorKind::CpuTemp,
    ensures
        ({
            let own = chip == "k10temp"@ || chip == "coretemp"@ || chip == "sbtsi_temp"@;
            let board = text::starts(chip, "nct6"@) || text::starts(chip, "it8"@);
            &&& own ==> refined(chip, label).confidence == Confidence::High
            &&& !own && board ==> refined(chip, label).confidence == Confidence::Medium
            &&& !own && !board ==> refined(chip, label).confidence == Confidence::Low
        }),
{
}

/// The label of a processor sensor says its class: Tctl and Tdie as they are named, a
/// core or a core complex as a core, and anything else as the package.
pub proof fn the_label_says_the_class_of_a_processor_sensor(chip: Seq<char>, label: Seq<char>)
    requires
        discovery::kind_of(chip, label) == SensorKind::CpuTemp,
    ensures
        ({
            let l = text::lower(label);
            let class = refined(chip, label).class;
            &&& class is CpuTctl <==> text::holds(l, "tctl"@)
            &&& class is CpuTdie <==> text::holds(l, "tdie"@) && !text::holds(l, "tctl"@)
            &&& class is CpuCore ==> text::holds(l, "tccd"@) || text::holds(l, "core"@)
            &&& text::holds(l, "tccd"@) || text::holds(l, "core"@) ==> class is CpuCore
                || class is CpuTctl || class is CpuTdie
            &&& class is CpuPackage <==> !text::holds(l, "tctl"@) && !text::holds(l, "tdie"@)
                && !text::holds(l, "tccd"@) && !text::holds(l, "core"@)
        }),
{
}

/// What is said of a sensor of the board: its label tells the regulator and the chipset,
/// and a sensor that nothing is known of has no class.
pub proof fn the_label_says_the_class_of_a_board_sensor(chip: Seq<char>, label: Seq<char>)
    requires
        discovery::kind_of(chip, label) == SensorKind::MbTemp,
    ensures
        ({
            let l = text::lower(label);
            let r = refined(chip, label);
            let known = text::starts(chip, "nct6"@) || text::starts(chip, "it8"@) || chip
                == "asus_ec_sensors"@ || chip == "asus_wmi_sensors"@ || chip == "gigabyte_wmi"@;
            &&& r.class is VrmTemp <==> text::holds(l, "vrm"@)
            &&& r.class is ChipsetTemp <==> !text::holds(l, "vrm"@) && (text::holds(l, "pch"@)
                || text::holds(l, "chipset"@))
            &&& known ==> r.confidence == Confidence::Medium && !(r.class is UnknownTemp)
            &&& !known ==> !(r.class is MotherboardTemp) && (r.confidence == Confidence::Unknown
                <==> r.class is UnknownTemp) && (r.confidence == Confidence::Low <==> !(
            r.class is UnknownTemp))
        }),
{
}

/// A graphics card, a disk and the coolant are told for sure.
pub proof fn other_kinds_are_sure(chip: Seq<char>, label: Seq<char>)
    ensures
        discovery::kind_of(chip, label) == SensorKind::GpuTemp ==> refined(chip, label).class
            == TempClass::GpuTemp && refined(chip, label).confidence == Confidence::High,
        discovery::kind_of(chip, label) == SensorKind::DiskTemp ==> refined(chip, label).class
            == TempClass::DiskTemp && refined(chip, label).confidence == Confidence::High,
        discovery::kind_of(chip, label) == SensorKind::CoolantTemp ==> refined(chip, label).class
            == TempClass::CoolantTemp && refined(chip, label).confidence == Confidence::High,
{
}

/// No two classes and no two degrees of confidence share a word.
pub proof fn words_tell_classes_apart(a: TempClass, b: TempClass, c: Confidence, d: Confidence)
    ensures
        a.word() == b.word() ==> a == b,
        c.word() == d.word() ==> c == d,
{
    reveal_strlit("cpu_package");
    reveal_strlit("cpu_core");
    reveal_strlit("cpu_tctl");
    reveal_strlit("cpu_tdie");
    reveal_strlit("motherboard_temp");
    reveal_strlit("vrm_temp");
    reveal_strlit("chipset_temp");
    reveal_strlit("gpu_temp");
    reveal_strlit("disk_temp");
    reveal_strlit("coolant_temp");
    reveal_strlit("unknown_temp");
    reveal_strlit("high");
    reveal_strlit("medium");
    reveal_strlit("low");
    reveal_strlit("unknown");
    let x = a.word();
    let y = b.word();
    if x == y && a != b {
        assert(x.len() == y.len() && x[0] == y[0] && x[x.len() - 1] == y[y.len() - 1]);
        assert(x[4] == y[4] && x[5] == y[5] && x[3] == y[3]);
    }
    let p = c.word();
    let q = d.word();
    if p == q && c != d {
        assert(p.len() == q.len() && p[0] == q[0]);
    }
}

} // verus!
