//! Errors reported by the node's sensor drivers.
use vstd::prelude::*;

verus! {

/// Why a sensor could not be set up or read.
#[derive(Debug, Clone, Copy, PartialEq, Eq, Structural)]
pub enum SensorError {
    InitFailure,
    MeasurementFailure,
    Bme280NoTemperatureData,
    Bme280NoHumidityData,
    Bme280NoPressureData,
}

} // verus!
