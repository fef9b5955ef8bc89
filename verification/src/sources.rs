use vstd::prelude::*;
use crate::model::{BatteryReading, MetricAvailability, TrafficReading};

verus! {

/// A source of the current time.
pub trait Clock {
    /// Milliseconds since the Unix epoch.
    fn now_millis(&self) -> u64;
}

/// A source of the device's traffic counters.
pub trait TrafficSource {
    fn read_traffic(&mut self) -> MetricAvailability<TrafficReading>;
}

/// A source of the battery's state.
pub trait BatterySource {
    fn read_battery(&mut self) -> MetricAvailability<BatteryReading>;
}

/// A source of the number of devices connected to the hotspot.
pub trait ConnectedDeviceCountSource {
    fn read_connected_device_count(&mut self) -> MetricAvailability<u32>;
}

} // verus!
