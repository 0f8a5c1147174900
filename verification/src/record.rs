//! The decoded header record and its sub-records.
//!
//! Each sub-record is either absent or fully populated: the aggregate holds an
//! `Option` per field, and a sub-record carries plain values only, so a
//! partially decoded line can never leak half a sub-record into the result.

use vstd::prelude::*;

verus! {

/// Operator-configured alarm thresholds, decoded from a tag-`A` line.
///
/// Voltages arrive in the header as integer tenths of a volt and are kept
/// that way; readers divide by ten for display.
#[derive(Clone, Copy, Debug, PartialEq, Eq, Structural)]
pub struct Alarms {
    pub volts_max_tenths: i32,
    pub volts_min_tenths: i32,
    pub egt_spread_max: i32,
    pub cht_max: i32,
    pub cht_cool_rate_max: i32,
    pub egt_max: i32,
    pub oil_temp_max: i32,
    pub oil_temp_min: i32,
}

/// Fuel-flow units a recorder can be configured with.
#[derive(Clone, Copy, Debug, PartialEq, Eq, Structural)]
pub enum FuelFlowUnits {
    GallonsPerHour,
    PoundsPerHour,
    LitresPerHour,
    KilogramsPerHour,
}

/// Engine temperature units a recorder can be configured with.
#[derive(Clone, Copy, Debug, PartialEq, Eq, Structural)]
pub enum TempUnits {
    Fahrenheit,
    Celsius,
}

/// Fuel-flow configuration. Part of the data model, but no header tag decodes
/// into it yet, so it is never populated.
#[derive(Clone, Copy, Debug, PartialEq, Eq, Structural)]
pub struct Fuel {
    pub fuel_flow_units: FuelFlowUnits,
    pub full_level: i32,
    pub warning_level: i32,
    pub k_factor_ff1: i32,
    pub k_factor_ff2: i32,
}

/// Installed-sensor inventory. Part of the data model, but no header tag
/// decodes into it yet, so it is never populated.
#[derive(Clone, Copy, Debug, PartialEq, Eq, Structural)]
pub struct Sensors {
    pub egt_count: i32,
    pub cht_count: i32,
    pub volts: bool,
    pub oil_temp: bool,
    pub tit1: bool,
    pub tit2: bool,
    pub oat: bool,
    pub fuel_flow: bool,
    pub iat: bool,
    pub cdt: bool,
    pub manifold_pressure: bool,
    pub rpm: bool,
}

/// Firmware, model and sensor identifiers. Part of the data model, but no
/// header tag decodes into it yet, so it is never populated.
#[derive(Clone, Copy, Debug, PartialEq, Eq, Structural)]
pub struct Features {
    pub model: i32,
    pub firmware_version: i32,
    pub sensors: Sensors,
    pub engine_temperature_unit: TempUnits,
}

/// The decoded header: one optional sub-record per line tag. A field stays
/// `None` until a line with its tag decodes successfully; a later line with
/// the same tag overwrites an earlier decode.
#[derive(Clone, Debug, PartialEq, Eq)]
pub struct HeaderRecord {
    /// Aircraft registration (tail number), from a tag-`U` line.
    pub registration: Option<String>,
    /// Alarm thresholds, from a tag-`A` line.
    pub alarms: Option<Alarms>,
    /// Fuel-flow settings: modeled, never decoded today.
    pub fuel: Option<Fuel>,
    /// Firmware, model and sensor inventory: modeled, never decoded today.
    pub features: Option<Features>,
}

impl HeaderRecord {
    /// An empty record, every field unset.
    pub fn new() -> (r: HeaderRecord)
        ensures
            r.registration is None,
            r.alarms is None,
            r.fuel is None,
            r.features is None,
    {
        HeaderRecord { registration: None, alarms: None, fuel: None, features: None }
    }
}

} // verus!
