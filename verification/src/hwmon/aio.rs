//! Liquid coolers: which chips are one, and which sensors measure the coolant.
//!
//! The chip names are those that the kernel's hwmon devices carry: `x53`, `z53`,
//! `kraken2023`, `kraken2023elite` and `kraken2024elite` for the nzxt-kraken3 driver,
//! `kraken2` for nzxt-kraken2, `d5next`, `highflownext` and `leakshield` for the liquid
//! devices of aquacomputer_d5next. Fan and light controllers are no coolers.
//!
//! That a sensor measures the coolant has no meaning for thermal safety.

use crate::text;
use crate::text::{contains, lowercase, str_eq};
use vstd::prelude::*;

verus! {

/// Whether a name in small letters is that of a Kraken that the listed coolers know.
pub open spec fn is_listed_kraken(name: Seq<char>) -> bool {
    ||| name == "x53"@
    ||| name == "z53"@
    ||| name == "kraken2023"@
    ||| name == "kraken2023elite"@
    ||| name == "kraken2"@
}

/// Whether a chip is a liquid cooler, whatever the letter case of its name.
pub open spec fn is_cooler(chip_name: Seq<char>) -> bool {
    let name = text::lower(chip_name);
    ||| is_listed_kraken(name)
    ||| name == "d5next"@
    ||| name == "highflownext"@
    ||| name == "leakshield"@
}

/// Whether a chip is driven by nzxt-kraken3, whatever the letter case of its name.
pub open spec fn is_kraken3(chip_name: Seq<char>) -> bool {
    let name = text::lower(chip_name);
    ||| name == "x53"@
    ||| name == "z53"@
    ||| name == "kraken2023"@
    ||| name == "kraken2023elite"@
    ||| name == "kraken2024elite"@
}

/// Whether a sensor measures the coolant: its chip has no other temperature, or its
/// label says so. Aquacomputer chips have external probes too, so there only the label
/// counts.
pub open spec fn measures_coolant(chip_name: Seq<char>, label: Seq<char>) -> bool {
    ||| is_listed_kraken(text::lower(chip_name))
    ||| text::holds(text::lower(label), "coolant"@)
    ||| text::holds(text::lower(label), "water"@)
    ||| text::holds(text::lower(label), "liquid"@)
}

fn listed_kraken(name: &str) -> (r: bool)
    ensures
        r == is_listed_kraken(name@),
{
    str_eq(name, "x53") || str_eq(name, "z53") || str_eq(name, "kraken2023") || str_eq(
        name,
        "kraken2023elite",
    ) || str_eq(name, "kraken2")
}

/// Whether a chip is a liquid cooler.
pub fn is_liquid_cooler_chip(chip_name: &str) -> (r: bool)
    ensures
        r == is_cooler(chip_name@),
{
    let lowered: String = lowercase(chip_name);
    let name: &str = lowered.as_str();
    listed_kraken(name) || str_eq(name, "d5next") || str_eq(name, "highflownext") || str_eq(
        name,
        "leakshield",
    )
}

/// Whether a chip is driven by nzxt-kraken3, whose automatic mode uploads a curve that
/// is all zero unless something wrote it.
pub fn is_nzxt_kraken3_chip(chip_name: &str) -> (r: bool)
    ensures
        r == is_kraken3(chip_name@),
{
    let lowered: String = lowercase(chip_name);
    let name: &str = lowered.as_str();
    str_eq(name, "x53") || str_eq(name, "z53") || str_eq(name, "kraken2023") || str_eq(
        name,
        "kraken2023elite",
    ) || str_eq(name, "kraken2024elite")
}

/// Whether a sensor measures the coolant.
pub fn is_coolant_sensor(chip_name: &str, label: &str) -> (r: bool)
    ensures
        r == measures_coolant(chip_name@, label@),
{
    let name: String = lowercase(chip_name);
    if listed_kraken(name.as_str()) {
        return true;
    }
    let l: String = lowercase(label);
    contains(l.as_str(), "coolant") || contains(l.as_str(), "water") || contains(
        l.as_str(),
        "liquid",
    )
}

// ---------------------------------------------------------------------------
// Laws
// ---------------------------------------------------------------------------

/// A Kraken whose only temperature is that of the coolant is a cooler, and each of its
/// sensors measures the coolant, whatever its label.
pub proof fn a_listed_kraken_measures_the_coolant(chip_name: Seq<char>, label: Seq<char>)
    ensures
        ({
            let name = text::lower(chip_name);
            name == "x53"@ || name == "z53"@ || name == "kraken2023"@ || name
                == "kraken2023elite"@ || name == "kraken2"@ ==> is_cooler(chip_name)
                && measures_coolant(chip_name, label)
        }),
{
}

/// The liquid devices of Aquacomputer are coolers, but their sensors measure the coolant
/// only where the label says so: it speaks of coolant, water or liquid.
pub proof fn a_label_tells_the_coolant(chip_name: Seq<char>, label: Seq<char>)
    ensures
        ({
            let name = text::lower(chip_name);
            let l = text::lower(label);
            let told = text::holds(l, "coolant"@) || text::holds(l, "water"@) || text::holds(
                l,
                "liquid"@,
            );
            &&& told ==> measures_coolant(chip_name, label)
            &&& name == "d5next"@ || name == "highflownext"@ || name == "leakshield"@ ==> is_cooler(
                chip_name,
            ) && (measures_coolant(chip_name, label) <==> told)
            &&& measures_coolant(chip_name, label) && !told ==> is_cooler(chip_name)
        }),
{
    reveal_strlit("d5next");
    reveal_strlit("highflownext");
    reveal_strlit("leakshield");
    reveal_strlit("x53");
    reveal_strlit("z53");
    reveal_strlit("kraken2023");
    reveal_strlit("kraken2023elite");
    reveal_strlit("kraken2");
    let name = text::lower(chip_name);
    assert(name == "d5next"@ ==> name.len() == 6);
    assert(name == "highflownext"@ ==> name.len() == 12);
    assert(name == "leakshield"@ ==> name.len() == 10 && name[0] == 'l');
    assert(name == "x53"@ || name == "z53"@ ==> name.len() == 3);
    assert(name == "kraken2023"@ ==> name[0] == 'k');
    assert(name == "kraken2023elite"@ ==> name.len() == 15);
    assert(name == "kraken2"@ ==> name.len() == 7);
}

/// The chips of the nzxt-kraken3 driver are the X53, the Z53 and the Krakens of 2023 and
/// 2024; the Kraken of nzxt-kraken2 is none of them.
pub proof fn a_kraken_is_known_by_its_name(chip_name: Seq<char>)
    ensures
        ({
            let name = text::lower(chip_name);
            &&& is_kraken3(chip_name) <==> name == "x53"@ || name == "z53"@ || name
                == "kraken2023"@ || name == "kraken2023elite"@ || name == "kraken2024elite"@
            &&& name == "kraken2"@ ==> !is_kraken3(chip_name) && is_cooler(chip_name)
            &&& is_cooler(chip_name) <==> name == "x53"@ || name == "z53"@ || name
                == "kraken2023"@ || name == "kraken2023elite"@ || name == "kraken2"@ || name
                == "d5next"@ || name == "highflownext"@ || name == "leakshield"@
        }),
{
    reveal_strlit("x53");
    reveal_strlit("z53");
    reveal_strlit("kraken2023");
    reveal_strlit("kraken2023elite");
    reveal_strlit("kraken2024elite");
    reveal_strlit("kraken2");
    let name = text::lower(chip_name);
    assert(name == "x53"@ || name == "z53"@ ==> name.len() == 3);
    assert(name == "kraken2023"@ ==> name.len() == 10);
    assert(name == "kraken2023elite"@ || name == "kraken2024elite"@ ==> name.len() == 15);
    assert(name == "kraken2"@ ==> name.len() == 7);
}

/// Which of the ASCII letters of a name or a label are capitals plays no part.
pub proof fn the_case_of_a_cooler_plays_no_part(chip_name: Seq<char>, label: Seq<char>)
    ensures
        is_cooler(text::ascii_upper(chip_name)) == is_cooler(chip_name),
        is_kraken3(text::ascii_upper(chip_name)) == is_kraken3(chip_name),
        measures_coolant(text::ascii_upper(chip_name), text::ascii_upper(label))
            == measures_coolant(chip_name, label),
{
    text::lower_forgets_case(chip_name);
    text::lower_forgets_case(label);
}

} // verus!
