//! The temperature of a sensor.

use crate::error::HwmonError;
use crate::hwmon::types::{SensorDescriptor, SensorReading};
use crate::text;
use crate::text::{parse_signed, trim};
use vstd::prelude::*;
use vstd::string::*;

verus! {

/// The temperature that the text of an input file states, in thousandths of a degree.
pub open spec fn stated_temp(content: Result<String, String>) -> Option<i32> {
    match content {
        Ok(t) => match text::parsed_signed(
            text::trimmed(t@),
            i32::MIN as int,
            i32::MAX as int,
        ) {
            Some(n) => Some(n as i32),
            None => None,
        },
        Err(_) => None,
    }
}

/// What is wrong where an input file states no temperature: why it could not be read, or
/// what it holds.
pub open spec fn fault_of(content: Result<String, String>) -> Seq<char> {
    match content {
        Ok(t) => "invalid temperature '"@ + text::trimmed(t@) + "'"@,
        Err(reason) => reason@,
    }
}

/// Whether a reading is the one of a sensor with a temperature.
pub open spec fn is_reading(r: SensorReading, d: SensorDescriptor, value_mc: i32) -> bool {
    &&& r.id@ == d.id@
    &&& r.label@ == d.label@
    &&& r.kind == d.kind
    &&& r.source == d.source
    &&& r.value_mc == value_mc
}

/// The temperature of a sensor; `content` is what its input file gave.
pub fn read_temp(d: &SensorDescriptor, content: &Result<String, String>) -> (r: Result<
    SensorReading,
    HwmonError,
>)
    ensures
        match (r, stated_temp(*content)) {
            (Ok(reading), Some(value_mc)) => is_reading(reading, *d, value_mc),
            (Err(e), None) => e.is_read_error(d.input_path@, fault_of(*content)),
            _ => false,
        },
{
    match content {
        Ok(t) => {
            let trimmed: &str = trim(t.as_str());
            match parse_signed(trimmed, i32::MIN as i64, i32::MAX as i64) {
                Some(n) => Ok(
                    SensorReading {
                        id: d.id.clone(),
                        kind: d.kind,
                        label: d.label.clone(),
                        value_mc: n as i32,
                        source: d.source,
                    },
                ),
                None => {
                    let mut message: String = "invalid temperature '".to_owned();
                    message.append(trimmed);
                    message.append("'");
                    Err(HwmonError::ReadError { path: d.input_path.clone(), message })
                },
            }
        },
        Err(reason) => Err(
            HwmonError::ReadError { path: d.input_path.clone(), message: reason.clone() },
        ),
    }
}

/// A temperature that the kernel states is read as it is, in thousandths of a degree, with
/// whatever white space around it; a text that is no number is none.
pub proof fn a_stated_temperature_is_read(n: i32, lead: Seq<char>, trail: Seq<char>, t: String)
    requires
        text::is_blank(lead),
        text::is_blank(trail),
        t@ == lead + text::signed_decimal(n as int) + trail,
    ensures
        stated_temp(Ok::<String, String>(t)) == Some(n),
{
    let s = text::signed_decimal(n as int);
    text::a_written_signed_number_is_read_back(n as int, i32::MIN as int, i32::MAX as int);
    let m: nat = if n < 0 {
        (-(n as int)) as nat
    } else {
        n as nat
    };
    text::decimal_is_digits(m);
    assert(text::is_digit(text::decimal(m)[0]));
    assert(text::is_digit(text::decimal(m)[text::decimal(m).len() - 1]));
    assert(s.last() == text::decimal(m).last());
    text::trimming_takes_the_padding(lead, s, trail);
}

/// A file that could not be read states no temperature.
pub proof fn an_unread_file_states_nothing(reason: String)
    ensures
        stated_temp(Err::<String, String>(reason)) is None,
        fault_of(Err::<String, String>(reason)) == reason@,
{
}

} // verus!
