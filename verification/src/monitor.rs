use vstd::prelude::*;
use vstd::string::StringExecFns;
use crate::cache::{lemma_reads_fewer_than_asks, nondecreasing, read_times, ReadingCache};
use crate::model::{BatteryReading, DashboardState, MetricAvailability, MetricSample, TrafficReading};
use crate::reducer::SessionReducer;
use crate::sources::{BatterySource, Clock, ConnectedDeviceCountSource, TrafficSource};
use crate::text::{decimal, push_decimal};

verus! {

/// How many samples each trend keeps.
pub const TREND_CAPACITY: usize = 600;

/// How long a battery reading is reused before the battery is read again.
pub const BATTERY_REFRESH_MILLIS: u64 = 10_000;

/// The wait before the next sample: a second while the app is in the
/// foreground, a minute while it is in the background.
pub fn tick_delay_millis(foreground: bool) -> (delay: u64)
    ensures
        delay == (if foreground { 1000u64 } else { 60_000u64 }),
{
    if foreground {
        1000
    } else {
        60_000
    }
}

/// What a timer tick does.
#[derive(Clone, Copy, Debug, PartialEq, Eq, Structural)]
pub enum TickStep {
    /// The window is gone: stop sampling.
    Stop,
    /// Take a sample, and show it when `refresh_ui` holds.
    Sample { refresh_ui: bool },
}

/// The step for a tick: stop once the window is closed; otherwise sample, and
/// refresh the window only in the foreground.
pub fn on_tick(window_open: bool, foreground: bool) -> (step: TickStep)
    ensures
        !window_open ==> step == TickStep::Stop,
        window_open ==> step == (TickStep::Sample { refresh_ui: foreground }),
{
    if window_open {
        TickStep::Sample { refresh_ui: foreground }
    } else {
        TickStep::Stop
    }
}

/// Reads the sources and turns their readings into dashboard states.
pub struct HotspotMonitor<Traffic, Battery, Connected, Time>
where
    Traffic: TrafficSource + 'static,
    Battery: BatterySource + 'static,
    Connected: ConnectedDeviceCountSource + 'static,
    Time: Clock + 'static,
{
    reducer: SessionReducer,
    traffic: Traffic,
    battery: Battery,
    connected: Connected,
    clock: Time,
    battery_cache: ReadingCache<BatteryReading>,
    sample_times: Ghost<Seq<u64>>,
    battery_reads: Ghost<Seq<u64>>,
}

impl<Traffic, Battery, Connected, Time> HotspotMonitor<Traffic, Battery, Connected, Time>
where
    Traffic: TrafficSource + 'static,
    Battery: BatterySource + 'static,
    Connected: ConnectedDeviceCountSource + 'static,
    Time: Clock + 'static,
{
    /// The reducer that the monitor feeds.
    pub closed spec fn reducer(&self) -> SessionReducer {
        self.reducer
    }

    /// The last battery reading and when it was taken.
    pub closed spec fn battery_cache(&self) -> ReadingCache<BatteryReading> {
        self.battery_cache
    }

    /// The clock's time at each sample so far.
    pub closed spec fn sample_times(&self) -> Seq<u64> {
        self.sample_times@
    }

    /// The sample times at which the battery was read.
    pub closed spec fn battery_read_times(&self) -> Seq<u64> {
        self.battery_reads@
    }

    /// The reducer is well formed, and the battery was read exactly when its
    /// last reading was not fresh any more.
    pub closed spec fn wf(&self) -> bool {
        &&& self.reducer.wf()
        &&& self.battery_cache.refresh_after() == BATTERY_REFRESH_MILLIS
        &&& self.battery_reads@ == read_times(self.sample_times@, BATTERY_REFRESH_MILLIS)
        &&& match self.battery_cache.entry() {
            None => self.battery_reads@.len() == 0,
            Some((read_at, _)) => self.battery_reads@.len() > 0 && read_at == self.battery_reads@.last(),
        }
    }

    pub fn new(traffic: Traffic, battery: Battery, connected: Connected, clock: Time) -> (monitor: Self)
        ensures
            monitor.wf(),
            monitor.sample_times().len() == 0,
            monitor.battery_read_times().len() == 0,
            monitor.reducer().wf(),
            monitor.reducer()@.baseline is None,
            monitor.reducer()@.previous is None,
            monitor.reducer()@.speed_trend.len() == 0,
            monitor.reducer()@.battery_trend.len() == 0,
            monitor.reducer()@.temperature_trend.len() == 0,
            monitor.reducer()@.trend_capacity == TREND_CAPACITY,
    {
        Self {
            reducer: SessionReducer::new(TREND_CAPACITY),
            traffic,
            battery,
            connected,
            clock,
            battery_cache: ReadingCache::new(BATTERY_REFRESH_MILLIS),
            sample_times: Ghost(Seq::empty()),
            battery_reads: Ghost(Seq::empty()),
        }
    }

    /// Whether the battery is to be read for a sample at `now`: there is no
    /// battery reading yet, or the last one is `BATTERY_REFRESH_MILLIS` old.
    pub fn battery_due(&self, now: u64) -> (due: bool)
        ensures
            due == (self.battery_cache().fresh_at(now) is None),
    {
        self.battery_cache.fresh_reading(now).is_none()
    }

    /// The sample taken at `now` with these readings: the battery reading
    /// given, or else the one kept.
    pub open spec fn sample_of(
        &self,
        now: u64,
        traffic: MetricAvailability<TrafficReading>,
        battery: Option<MetricAvailability<BatteryReading>>,
        connected_device_count: MetricAvailability<u32>,
    ) -> MetricSample {
        MetricSample {
            timestamp_millis: now,
            traffic,
            battery: match battery {
                Some(reading) => reading,
                None => self.battery_cache().fresh_at(now)->0,
            },
            connected_device_count,
        }
    }

    /// Hands the reducer the sample taken at `now` with the given traffic and
    /// connected-device count, and with `battery` when the battery was due and
    /// read (it is then kept), or else the kept battery reading.
    pub fn record_sample(
        &mut self,
        now: u64,
        traffic: MetricAvailability<TrafficReading>,
        battery: Option<MetricAvailability<BatteryReading>>,
        connected_device_count: MetricAvailability<u32>,
    ) -> (state: DashboardState)
        requires
            old(self).wf(),
            battery is Some <==> old(self).battery_cache().fresh_at(now) is None,
        ensures
            final(self).wf(),
            final(self).reducer()@ == old(self).reducer()@.after(
                old(self).sample_of(now, traffic, battery, connected_device_count),
            ),
            old(self).reducer()@.shows(old(self).sample_of(now, traffic, battery, connected_device_count), state),
            final(self).sample_times() == old(self).sample_times().push(now),
            battery matches Some(reading) ==> final(self).battery_cache().entry() == Some((now, reading))
                && final(self).battery_read_times() == old(self).battery_read_times().push(now),
            battery is None ==> final(self).battery_cache() == old(self).battery_cache()
                && final(self).battery_read_times() == old(self).battery_read_times(),
    {
        let ghost expected = old(self).sample_of(now, traffic, battery, connected_device_count);
        let battery = match battery {
            Some(reading) => {
                self.battery_reads = Ghost(self.battery_reads@.push(now));
                self.battery_cache.store(now, reading)
            },
            None => self.battery_cache.fresh_reading(now).unwrap(),
        };
        proof {
            let times = old(self).sample_times@;
            assert(times.push(now).drop_last() =~= times);
        }
        self.sample_times = Ghost(self.sample_times@.push(now));
        let sample = MetricSample { timestamp_millis: now, traffic, battery, connected_device_count };
        assert(sample == expected);
        self.reducer.accept(sample)
    }

    /// Reads the clock, the traffic and the connected-device count once, the
    /// battery only when its last reading is older than
    /// `BATTERY_REFRESH_MILLIS`, and hands the sample to the reducer.
    pub fn sample(&mut self) -> (state: DashboardState)
        requires
            old(self).wf(),
        ensures
            final(self).wf(),
            final(self).reducer().wf(),
            final(self).battery_read_times() == read_times(final(self).sample_times(), BATTERY_REFRESH_MILLIS),
            exists|sample: MetricSample| {
                &&& final(self).reducer()@ == old(self).reducer()@.after(sample)
                &&& old(self).reducer()@.shows(sample, state)
                &&& final(self).sample_times() == old(self).sample_times().push(sample.timestamp_millis)
                &&& old(self).battery_cache().fresh_at(sample.timestamp_millis) matches Some(kept)
                    ==> sample.battery == kept
                        && final(self).battery_read_times() == old(self).battery_read_times()
                &&& old(self).battery_cache().fresh_at(sample.timestamp_millis) is None
                    ==> final(self).battery_cache().entry() == Some((sample.timestamp_millis, sample.battery))
                        && final(self).battery_read_times()
                        == old(self).battery_read_times().push(sample.timestamp_millis)
            },
    {
        let now = self.clock.now_millis();
        let traffic = self.traffic.read_traffic();
        let battery = if self.battery_due(now) {
            Some(self.battery.read_battery())
        } else {
            None
        };
        let connected_device_count = self.connected.read_connected_device_count();
        let ghost sample = old(self).sample_of(now, traffic, battery, connected_device_count);
        let state = self.record_sample(now, traffic, battery, connected_device_count);
        assert(self.reducer()@ == old(self).reducer()@.after(sample));
        state
    }
}

/// Sampled `n` times within less than `n - 1` battery refresh periods (at
/// about one sample a second, ten samples or more), a monitor reads the
/// battery fewer times than it samples, while it reads the clock, the traffic
/// and the connected-device count at every sample.
pub proof fn lemma_battery_read_less_often<Traffic, Battery, Connected, Time>(
    monitor: HotspotMonitor<Traffic, Battery, Connected, Time>,
)
    where
        Traffic: TrafficSource + 'static,
        Battery: BatterySource + 'static,
        Connected: ConnectedDeviceCountSource + 'static,
        Time: Clock + 'static,
    requires
        monitor.wf(),
        nondecreasing(monitor.sample_times()),
        monitor.sample_times().len() >= 2,
        monitor.sample_times().last() - monitor.sample_times()[0]
            < (monitor.sample_times().len() - 1) * BATTERY_REFRESH_MILLIS,
    ensures
        monitor.battery_read_times().len() < monitor.sample_times().len(),
{
    lemma_reads_fewer_than_asks(monitor.sample_times(), BATTERY_REFRESH_MILLIS);
}

/// The session's total traffic: received plus sent, when both are known.
pub fn total_bytes(rx: Option<u64>, tx: Option<u64>) -> (total: Option<u64>)
    requires
        rx matches Some(r) && tx matches Some(t) ==> r + t <= u64::MAX,
    ensures
        total == match (rx, tx) {
            (Some(r), Some(t)) => Some((r + t) as u64),
            _ => None,
        },
{
    match (rx, tx) {
        (Some(r), Some(t)) => Some(r + t),
        _ => None,
    }
}

/// The text of the battery level: `"68%"`, or `--` when it is not known.
pub open spec fn battery_text(value: MetricAvailability<BatteryReading>) -> Seq<char> {
    match value {
        MetricAvailability::Available(reading) => match reading.level_percent {
            Some(level) => decimal(level as nat) + "%"@,
            None => "--"@,
        },
        MetricAvailability::Unavailable { .. } => "--"@,
    }
}

pub fn format_battery(value: &MetricAvailability<BatteryReading>) -> (text: String)
    ensures
        text@ == battery_text(*value),
{
    match value {
        MetricAvailability::Available(reading) => match reading.level_percent {
            Some(level) => {
                let mut text = String::new();
                push_decimal(&mut text, level as u64);
                text.append("%");
                text
            },
            None => String::from_str("--"),
        },
        MetricAvailability::Unavailable { .. } => String::from_str("--"),
    }
}

/// Whole degrees from tenths of a degree (a magnitude), rounding halves to
/// the even neighbour.
pub open spec fn whole_degrees(tenths: nat) -> nat {
    let q = tenths / 10;
    let r = tenths % 10;
    if r > 5 || (r == 5 && q % 2 == 1) {
        q + 1
    } else {
        q
    }
}

/// The text of the battery temperature in whole degrees Celsius, `"39°C"`
/// (with a minus sign for any temperature below zero, `"-0°C"` included), or
/// `--` when it is not known.
pub open spec fn temperature_text(value: MetricAvailability<BatteryReading>) -> Seq<char> {
    match value {
        MetricAvailability::Available(reading) => match reading.temperature_decicelsius {
            Some(t) => (if t < 0 { "-"@ } else { Seq::empty() }) + decimal(whole_degrees(
                if t < 0 { (-t) as nat } else { t as nat },
            )) + "°C"@,
            None => "--"@,
        },
        MetricAvailability::Unavailable { .. } => "--"@,
    }
}

pub fn format_temperature(value: &MetricAvailability<BatteryReading>) -> (text: String)
    ensures
        text@ == temperature_text(*value),
{
    match value {
        MetricAvailability::Available(reading) => match reading.temperature_decicelsius {
            Some(t) => {
                let mut text = String::new();
                let magnitude: u64 = if t < 0 {
                    text.append("-");
                    (-(t as i64)) as u64
                } else {
                    t as u64
                };
                let q = magnitude / 10;
                let r = magnitude % 10;
                let degrees = if r > 5 || (r == 5 && q % 2 == 1) {
                    q + 1
                } else {
                    q
                };
                assert(degrees == whole_degrees(magnitude as nat));
                push_decimal(&mut text, degrees);
                text.append("°C");
                assert(text@ =~= temperature_text(*value));
                text
            },
            None => String::from_str("--"),
        },
        MetricAvailability::Unavailable { .. } => String::from_str("--"),
    }
}

} // verus!
