//! The solar panel: from an ADC reading to a voltage.

use crate::number::{decimal, to_decimal};
use vstd::prelude::*;

verus! {

/// The voltage of the largest reading, in millivolts.
pub const VREF_MV: u32 = 3300;

/// The largest 12-bit reading.
pub const ADC_MAX: u32 = 4095;

/// The voltage of a reading, in millivolts.
pub open spec fn millivolts(raw: int) -> int {
    raw * VREF_MV / (ADC_MAX as int)
}

/// The voltage of a reading, in millivolts.
pub fn voltage_mv(raw: u16) -> (r: u32)
    ensures
        r == millivolts(raw as int),
        r * 4095 <= raw * 3300 < (r + 1) * 4095,
{
    (raw as u32 * VREF_MV) / ADC_MAX
}

/// Answers `GET /api/solar`.
pub fn solar_json(raw: u16) -> (r: String)
    ensures
        r@ == "{\"raw\":"@ + decimal(raw as nat) + ",\"voltage_mv\":"@ + decimal(
            millivolts(raw as int) as nat,
        ) + "}"@,
{
    let raw_text = to_decimal(raw as u64);
    let voltage = to_decimal(voltage_mv(raw) as u64);
    let mut s = "{\"raw\":".to_owned();
    s.append(raw_text.as_str());
    s.append(",\"voltage_mv\":");
    s.append(voltage.as_str());
    s.append("}");
    s
}

/// A 12-bit reading gives a voltage of at most the reference, and a larger reading never a
/// smaller voltage.
pub proof fn law_voltage_follows_the_reading(a: int, b: int)
    requires
        0 <= a <= b <= ADC_MAX,
    ensures
        millivolts(0) == 0,
        millivolts(ADC_MAX as int) == VREF_MV,
        0 <= millivolts(a) <= millivolts(b) <= VREF_MV,
{
}

/// The voltage is proportional to the reading: 3300 mV are spread evenly over 4095 steps, and a
/// fraction of a millivolt is dropped.
pub proof fn law_voltage_is_proportional(raw: int)
    requires
        0 <= raw,
    ensures
        millivolts(raw) * 4095 <= raw * 3300,
        raw * 3300 < (millivolts(raw) + 1) * 4095,
{
}

} // verus!
