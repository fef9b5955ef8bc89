use vstd::prelude::*;
use vstd::string::StringExecFns;

verus! {

/// Byte counters of the device's network interfaces since boot.
#[derive(Clone, Copy, Debug, PartialEq, Eq, Structural)]
pub struct TrafficReading {
    pub rx_bytes: u64,
    pub tx_bytes: u64,
}

/// The battery's state. The temperature is in tenths of a degree Celsius,
/// the unit in which Android reports it.
#[derive(Clone, Copy, Debug, PartialEq, Eq, Structural)]
pub struct BatteryReading {
    pub level_percent: Option<u8>,
    pub temperature_decicelsius: Option<i32>,
    pub is_charging: bool,
}

/// A metric, or the reason why it cannot be read.
#[derive(Clone, Debug, PartialEq, Eq)]
pub enum MetricAvailability<T> {
    Available(T),
    Unavailable { reason: String },
}

/// What the sources report at one moment.
#[derive(Clone, Debug, PartialEq)]
pub struct MetricSample {
    pub timestamp_millis: u64,
    pub traffic: MetricAvailability<TrafficReading>,
    pub battery: MetricAvailability<BatteryReading>,
    pub connected_device_count: MetricAvailability<u32>,
}

/// How healthy the hotspot session looks.
#[derive(Clone, Copy, Debug, PartialEq, Eq, Structural)]
pub enum SessionStatus {
    Stable,
    Attention,
    Risk,
    Unknown,
}

/// Transfer rates between two samples.
#[derive(Clone, Copy, Debug, PartialEq, Eq, Structural)]
pub struct SpeedSnapshot {
    pub down_bytes_per_second: u64,
    pub up_bytes_per_second: u64,
}

/// What the dashboard shows.
#[derive(Clone, Debug, PartialEq)]
pub struct DashboardState {
    pub status: SessionStatus,
    pub status_reason: String,
    pub session_duration_millis: u64,
    pub session_rx_bytes: Option<u64>,
    pub session_tx_bytes: Option<u64>,
    pub speed: Option<SpeedSnapshot>,
    pub connected_device_count: MetricAvailability<u32>,
    pub battery: MetricAvailability<BatteryReading>,
    pub speed_trend: Vec<SpeedSnapshot>,
    pub battery_trend: Vec<u8>,
    pub temperature_trend: Vec<i32>,
    pub last_updated_millis: Option<u64>,
}

/// The reason shown while there are not yet enough samples.
pub open spec fn waiting_reason() -> Seq<char> {
    "等待足够采样"@
}

/// Whether `m` is unavailable for the reason `reason`.
pub open spec fn unavailable_because<T>(m: MetricAvailability<T>, reason: Seq<char>) -> bool {
    m matches MetricAvailability::Unavailable { reason: r } && r@ == reason
}

impl DashboardState {
    /// The dashboard before the first sample.
    pub fn initial() -> (state: Self)
        ensures
            state.status == SessionStatus::Unknown,
            state.status_reason@ == waiting_reason(),
            state.session_duration_millis == 0,
            state.session_rx_bytes is None,
            state.session_tx_bytes is None,
            state.speed is None,
            unavailable_because(state.connected_device_count, waiting_reason()),
            unavailable_because(state.battery, waiting_reason()),
            state.speed_trend@.len() == 0,
            state.battery_trend@.len() == 0,
            state.temperature_trend@.len() == 0,
            state.last_updated_millis is None,
    {
        Self {
            status: SessionStatus::Unknown,
            status_reason: String::from_str("等待足够采样"),
            session_duration_millis: 0,
            session_rx_bytes: None,
            session_tx_bytes: None,
            speed: None,
            connected_device_count: MetricAvailability::Unavailable {
                reason: String::from_str("等待足够采样"),
            },
            battery: MetricAvailability::Unavailable { reason: String::from_str("等待足够采样") },
            speed_trend: Vec::new(),
            battery_trend: Vec::new(),
            temperature_trend: Vec::new(),
            last_updated_millis: None,
        }
    }
}

} // verus!
