use vstd::prelude::*;
use vstd::string::StringExecFns;
use crate::model::{
    BatteryReading, DashboardState, MetricAvailability, MetricSample, SessionStatus, SpeedSnapshot,
    TrafficReading,
};
use crate::ring_buffer::{keep_newest, RingBuffer};
use crate::text::{chars_eq, chars_of};

verus! {

// ---------------------------------------------------------------------------
// What one sample yields
// ---------------------------------------------------------------------------

/// The traffic reading of a sample, when it has one.
pub open spec fn traffic_of(traffic: MetricAvailability<TrafficReading>) -> Option<TrafficReading> {
    match traffic {
        MetricAvailability::Available(reading) => Some(reading),
        MetricAvailability::Unavailable { .. } => None,
    }
}

/// `u64::saturating_sub`.
pub open spec fn sat_sub(a: u64, b: u64) -> u64 {
    if a >= b {
        (a - b) as u64
    } else {
        0
    }
}

/// `u64::saturating_mul`.
pub open spec fn sat_mul(a: u64, b: u64) -> u64 {
    if a * b > u64::MAX {
        u64::MAX
    } else {
        (a * b) as u64
    }
}

/// Bytes per second between two counter values `elapsed` milliseconds apart.
pub open spec fn rate(before: u64, after: u64, elapsed: u64) -> u64 {
    sat_mul(sat_sub(after, before), 1000) / elapsed
}

/// The speed between the previous sample and the one taken at `now`: there
/// is one when both have a traffic reading and time has moved forward.
pub open spec fn speed_between(
    previous: Option<(u64, Option<TrafficReading>)>,
    now: u64,
    current: Option<TrafficReading>,
) -> Option<SpeedSnapshot> {
    match (previous, current) {
        (Some((then, Some(p))), Some(c)) => if now > then {
            Some(SpeedSnapshot {
                down_bytes_per_second: rate(p.rx_bytes, c.rx_bytes, (now - then) as u64),
                up_bytes_per_second: rate(p.tx_bytes, c.tx_bytes, (now - then) as u64),
            })
        } else {
            None
        },
        _ => None,
    }
}

/// The session baseline once a sample has been taken: the first sample with a
/// traffic reading starts the session, and the baseline never changes after.
pub open spec fn baseline_after(
    baseline: Option<(u64, TrafficReading)>,
    sample: MetricSample,
) -> Option<(u64, TrafficReading)> {
    match (baseline, traffic_of(sample.traffic)) {
        (None, Some(reading)) => Some((sample.timestamp_millis, reading)),
        _ => baseline,
    }
}

/// The bytes received and sent since the baseline.
pub open spec fn session_traffic(
    baseline: Option<(u64, TrafficReading)>,
    current: Option<TrafficReading>,
) -> (Option<u64>, Option<u64>) {
    match (baseline, current) {
        (Some((_, base)), Some(c)) => (
            Some(sat_sub(c.rx_bytes, base.rx_bytes)),
            Some(sat_sub(c.tx_bytes, base.tx_bytes)),
        ),
        _ => (None, None),
    }
}

/// The text shown for an unavailability reason: the known ones in Chinese,
/// any other one as it is.
pub open spec fn localized(reason: Seq<char>) -> Seq<char> {
    if reason == "Traffic counters unavailable on this device"@ {
        "此设备不允许读取流量计数"@
    } else if reason == "Connected count restricted by system"@ {
        "系统限制读取连接设备数"@
    } else if reason == "Waiting for enough samples"@ {
        "等待足够采样"@
    } else if reason == "Battery state unavailable"@ {
        "无法读取电池状态"@
    } else {
        reason
    }
}

/// How healthy a sample says the session is, and why, given the speed it
/// yields. The first rule that applies decides:
/// no traffic counters → Risk; no battery state → Attention;
/// battery under 10% and not charging → Risk; 45 °C or more → Risk;
/// battery under 20% → Attention; 40 °C or more → Attention;
/// no speed yet → Unknown; otherwise Stable.
pub open spec fn classification(sample: MetricSample, speed: Option<SpeedSnapshot>) -> (SessionStatus, Seq<char>) {
    match sample.traffic {
        MetricAvailability::Unavailable { reason } => (SessionStatus::Risk, localized(reason@)),
        MetricAvailability::Available(_) => match sample.battery {
            MetricAvailability::Unavailable { reason } => (SessionStatus::Attention, localized(reason@)),
            MetricAvailability::Available(b) => if b.level_percent matches Some(l) && l < 10
                && !b.is_charging {
                (SessionStatus::Risk, "电量严重偏低"@)
            } else if b.temperature_decicelsius matches Some(t) && t >= 450 {
                (SessionStatus::Risk, "温度过高"@)
            } else if b.level_percent matches Some(l) && l < 20 {
                (SessionStatus::Attention, "电量偏低"@)
            } else if b.temperature_decicelsius matches Some(t) && t >= 400 {
                (SessionStatus::Attention, "温度偏高"@)
            } else if speed is None {
                (SessionStatus::Unknown, "等待足够采样"@)
            } else {
                (SessionStatus::Stable, "热点会话状态稳定"@)
            },
        },
    }
}

/// The battery level that a sample adds to the battery trend.
pub open spec fn battery_level_of(battery: MetricAvailability<BatteryReading>) -> Option<u8> {
    match battery {
        MetricAvailability::Available(b) => b.level_percent,
        MetricAvailability::Unavailable { .. } => None,
    }
}

/// The temperature that a sample adds to the temperature trend.
pub open spec fn temperature_of(battery: MetricAvailability<BatteryReading>) -> Option<i32> {
    match battery {
        MetricAvailability::Available(b) => b.temperature_decicelsius,
        MetricAvailability::Unavailable { .. } => None,
    }
}

/// `trend` with `item` added, when there is one.
pub open spec fn trend_after<T>(trend: Seq<T>, item: Option<T>, capacity: nat) -> Seq<T> {
    match item {
        Some(x) => keep_newest(trend.push(x), capacity),
        None => trend,
    }
}

// ---------------------------------------------------------------------------
// The reducer
// ---------------------------------------------------------------------------

/// What a reducer remembers between samples.
pub struct ReducerView {
    /// When the session started and the counters at that moment.
    pub baseline: Option<(u64, TrafficReading)>,
    /// When the last sample was taken and its traffic reading, if any.
    pub previous: Option<(u64, Option<TrafficReading>)>,
    pub speed_trend: Seq<SpeedSnapshot>,
    pub battery_trend: Seq<u8>,
    pub temperature_trend: Seq<i32>,
    pub trend_capacity: nat,
}

impl ReducerView {
    /// The speed that `sample` yields.
    pub open spec fn speed(self, sample: MetricSample) -> Option<SpeedSnapshot> {
        speed_between(self.previous, sample.timestamp_millis, traffic_of(sample.traffic))
    }

    /// What the reducer remembers after `sample`.
    pub open spec fn after(self, sample: MetricSample) -> ReducerView {
        ReducerView {
            baseline: baseline_after(self.baseline, sample),
            previous: Some((sample.timestamp_millis, traffic_of(sample.traffic))),
            speed_trend: trend_after(self.speed_trend, self.speed(sample), self.trend_capacity),
            battery_trend: trend_after(self.battery_trend, battery_level_of(sample.battery), self.trend_capacity),
            temperature_trend: trend_after(self.temperature_trend, temperature_of(sample.battery), self.trend_capacity),
            trend_capacity: self.trend_capacity,
        }
    }

    /// Whether `state` is what the dashboard shows after `sample`: status and
    /// reason by `classification`; the session's length and traffic since the
    /// baseline (the session starts with this sample when it is the first with
    /// traffic counters); the speed since the previous sample; the sample's own
    /// connected-device count and battery; the trends with this sample added.
    pub open spec fn shows(self, sample: MetricSample, state: DashboardState) -> bool {
        let next = self.after(sample);
        let verdict = classification(sample, self.speed(sample));
        &&& state.status == verdict.0
        &&& state.status_reason@ == verdict.1
        &&& state.session_duration_millis == sat_sub(
            sample.timestamp_millis,
            match next.baseline {
                Some((start, _)) => start,
                None => sample.timestamp_millis,
            },
        )
        &&& (state.session_rx_bytes, state.session_tx_bytes) == session_traffic(
            next.baseline,
            traffic_of(sample.traffic),
        )
        &&& state.speed == self.speed(sample)
        &&& state.connected_device_count == sample.connected_device_count
        &&& state.battery == sample.battery
        &&& state.speed_trend@ == next.speed_trend
        &&& state.battery_trend@ == next.battery_trend
        &&& state.temperature_trend@ == next.temperature_trend
        &&& state.last_updated_millis == Some(sample.timestamp_millis)
    }

    /// Every trend holds at most `trend_capacity` items.
    pub open spec fn bounded(self) -> bool {
        &&& self.speed_trend.len() <= self.trend_capacity
        &&& self.battery_trend.len() <= self.trend_capacity
        &&& self.temperature_trend.len() <= self.trend_capacity
    }
}

// ---------------------------------------------------------------------------
// Laws
// ---------------------------------------------------------------------------

/// The session starts once: after the first sample with traffic counters, the
/// baseline stays what it is whatever samples follow.
pub proof fn lemma_baseline_is_kept(reducer: ReducerView, sample: MetricSample)
    requires
        reducer.baseline is Some,
    ensures
        reducer.after(sample).baseline == reducer.baseline,
{
}

/// The trends stay bounded: if every trend holds at most `trend_capacity`
/// items, so does every trend after any sample.
pub proof fn lemma_trends_stay_bounded(reducer: ReducerView, sample: MetricSample)
    requires
        reducer.bounded(),
    ensures
        reducer.after(sample).bounded(),
        reducer.after(sample).trend_capacity == reducer.trend_capacity,
{
}

/// Whether two samples agree in everything but the connected-device count.
pub open spec fn same_but_connected_count(a: MetricSample, b: MetricSample) -> bool {
    &&& a.timestamp_millis == b.timestamp_millis
    &&& a.traffic == b.traffic
    &&& a.battery == b.battery
}

/// The connected-device count has no part in the session's health: two
/// samples that differ only in it give the same status, reason and speed,
/// and leave the reducer in the same state.
pub proof fn lemma_connected_count_ignored(reducer: ReducerView, a: MetricSample, b: MetricSample)
    requires
        same_but_connected_count(a, b),
    ensures
        reducer.speed(a) == reducer.speed(b),
        classification(a, reducer.speed(a)) == classification(b, reducer.speed(b)),
        reducer.after(a) == reducer.after(b),
{
}

/// Without traffic counters the session is at risk and there is no speed.
pub proof fn lemma_unavailable_traffic_is_risk(reducer: ReducerView, sample: MetricSample)
    requires
        sample.traffic is Unavailable,
    ensures
        classification(sample, reducer.speed(sample)).0 == SessionStatus::Risk,
        reducer.speed(sample) is None,
{
}

/// Whether a battery reading has a level under `percent`.
pub open spec fn level_below(b: BatteryReading, percent: int) -> bool {
    b.level_percent matches Some(l) && l < percent
}

/// Whether a battery reading has a temperature of `tenths` of a degree or more.
pub open spec fn temperature_at_least(b: BatteryReading, tenths: int) -> bool {
    b.temperature_decicelsius matches Some(t) && t >= tenths
}

/// Whether a battery reading is critically low: under 10 % and not charging.
pub open spec fn critically_low(b: BatteryReading) -> bool {
    level_below(b, 10) && !b.is_charging
}

/// The battery and temperature rules, for a sample with traffic counters and
/// a battery reading `b`:
/// - under 10 % and not charging is a risk ("电量严重偏低");
/// - otherwise 45.0 °C or more is a risk ("温度过高"), charging or not;
/// - otherwise under 20 % needs attention ("电量偏低"), charging or not;
/// - otherwise 40.0 °C or more needs attention ("温度偏高");
/// - otherwise the session is stable once there is a speed, and waits for
///   one before.
pub proof fn lemma_battery_rules(sample: MetricSample, speed: Option<SpeedSnapshot>, b: BatteryReading)
    requires
        sample.traffic is Available,
        sample.battery == MetricAvailability::Available(b),
    ensures
        critically_low(b) ==> classification(sample, speed) == (SessionStatus::Risk, "电量严重偏低"@),
        !critically_low(b) && temperature_at_least(b, 450)
            ==> classification(sample, speed) == (SessionStatus::Risk, "温度过高"@),
        !critically_low(b) && !temperature_at_least(b, 450) && level_below(b, 20)
            ==> classification(sample, speed) == (SessionStatus::Attention, "电量偏低"@),
        !level_below(b, 20) && temperature_at_least(b, 400) && !temperature_at_least(b, 450)
            ==> classification(sample, speed) == (SessionStatus::Attention, "温度偏高"@),
        !level_below(b, 20) && !temperature_at_least(b, 400)
            ==> classification(sample, speed) == if speed is None {
                (SessionStatus::Unknown, "等待足够采样"@)
            } else {
                (SessionStatus::Stable, "热点会话状态稳定"@)
            },
{
}

/// Charging matters only for a critically low battery: two samples that
/// differ only in whether the battery charges, with a level of 10 % or more
/// (or none), are classified alike.
pub proof fn lemma_charging_matters_only_when_critical(
    a: MetricSample,
    b: MetricSample,
    speed: Option<SpeedSnapshot>,
    battery: BatteryReading,
)
    requires
        a.traffic == b.traffic,
        a.battery == MetricAvailability::Available(battery),
        b.battery == MetricAvailability::Available(BatteryReading { is_charging: !battery.is_charging, ..battery }),
        !level_below(battery, 10),
    ensures
        classification(a, speed) == classification(b, speed),
{
}

/// The status and reason that the dashboard shows after a sample are those
/// that `classification` gives for the sample and the speed it yields.
pub proof fn lemma_accept_classifies(reducer: ReducerView, sample: MetricSample, state: DashboardState)
    requires
        reducer.shows(sample, state),
    ensures
        state.status == classification(sample, reducer.speed(sample)).0,
        state.status_reason@ == classification(sample, reducer.speed(sample)).1,
{
}

/// The session is measured from its first sample with traffic counters: when a
/// fresh reducer takes `first` and then `later`, both with counters, the
/// session's length and traffic after `later` are the differences between
/// the two samples, and the speed is the byte difference per elapsed second.
pub proof fn lemma_session_measured_from_first_sample(
    reducer: ReducerView,
    first: MetricSample,
    later: MetricSample,
    state: DashboardState,
)
    requires
        reducer.baseline is None,
        first.traffic is Available,
        later.traffic is Available,
        reducer.after(first).shows(later, state),
    ensures
        state.session_duration_millis == sat_sub(later.timestamp_millis, first.timestamp_millis),
        state.session_rx_bytes == Some(sat_sub(later.traffic->0.rx_bytes, first.traffic->0.rx_bytes)),
        state.session_tx_bytes == Some(sat_sub(later.traffic->0.tx_bytes, first.traffic->0.tx_bytes)),
        later.timestamp_millis > first.timestamp_millis ==> state.speed == Some(SpeedSnapshot {
            down_bytes_per_second: rate(
                first.traffic->0.rx_bytes,
                later.traffic->0.rx_bytes,
                (later.timestamp_millis - first.timestamp_millis) as u64,
            ),
            up_bytes_per_second: rate(
                first.traffic->0.tx_bytes,
                later.traffic->0.tx_bytes,
                (later.timestamp_millis - first.timestamp_millis) as u64,
            ),
        }),
        later.timestamp_millis <= first.timestamp_millis ==> state.speed is None,
{
}

// ---------------------------------------------------------------------------
// Whole histories
// ---------------------------------------------------------------------------

/// What a new reducer with trends of `capacity` remembers.
pub open spec fn fresh_view(capacity: nat) -> ReducerView {
    ReducerView {
        baseline: None,
        previous: None,
        speed_trend: Seq::empty(),
        battery_trend: Seq::empty(),
        temperature_trend: Seq::empty(),
        trend_capacity: capacity,
    }
}

/// What a reducer remembers after taking `samples` in turn.
pub open spec fn after_all(start: ReducerView, samples: Seq<MetricSample>) -> ReducerView
    decreases samples.len(),
{
    if samples.len() == 0 {
        start
    } else {
        after_all(start, samples.drop_last()).after(samples.last())
    }
}

/// The time and the counters of the first sample with traffic counters.
pub open spec fn first_traffic(samples: Seq<MetricSample>) -> Option<(u64, TrafficReading)>
    decreases samples.len(),
{
    if samples.len() == 0 {
        None
    } else {
        match traffic_of(samples[0].traffic) {
            Some(reading) => Some((samples[0].timestamp_millis, reading)),
            None => first_traffic(samples.drop_first()),
        }
    }
}

/// When the last of `samples` was taken and its traffic reading.
pub open spec fn last_taken(samples: Seq<MetricSample>) -> Option<(u64, Option<TrafficReading>)> {
    if samples.len() == 0 {
        None
    } else {
        Some((samples.last().timestamp_millis, traffic_of(samples.last().traffic)))
    }
}

/// The speeds that `samples` yield in turn, one for each sample that has
/// traffic counters, follows a sample that had them and is later than it.
pub open spec fn history_speeds(samples: Seq<MetricSample>) -> Seq<SpeedSnapshot>
    decreases samples.len(),
{
    if samples.len() == 0 {
        Seq::empty()
    } else {
        let earlier = samples.drop_last();
        let now = samples.last();
        match speed_between(last_taken(earlier), now.timestamp_millis, traffic_of(now.traffic)) {
            Some(speed) => history_speeds(earlier).push(speed),
            None => history_speeds(earlier),
        }
    }
}

/// The battery levels that `samples` report, in turn.
pub open spec fn history_levels(samples: Seq<MetricSample>) -> Seq<u8>
    decreases samples.len(),
{
    if samples.len() == 0 {
        Seq::empty()
    } else {
        match battery_level_of(samples.last().battery) {
            Some(level) => history_levels(samples.drop_last()).push(level),
            None => history_levels(samples.drop_last()),
        }
    }
}

/// The battery temperatures that `samples` report, in turn.
pub open spec fn history_temperatures(samples: Seq<MetricSample>) -> Seq<i32>
    decreases samples.len(),
{
    if samples.len() == 0 {
        Seq::empty()
    } else {
        match temperature_of(samples.last().battery) {
            Some(t) => history_temperatures(samples.drop_last()).push(t),
            None => history_temperatures(samples.drop_last()),
        }
    }
}

proof fn lemma_first_traffic_push(samples: Seq<MetricSample>, next: MetricSample)
    ensures
        first_traffic(samples.push(next)) == baseline_after(first_traffic(samples), next),
    decreases samples.len(),
{
    if samples.len() > 0 {
        assert(samples.push(next)[0] == samples[0]);
        assert(samples.push(next).drop_first() =~= samples.drop_first().push(next));
        lemma_first_traffic_push(samples.drop_first(), next);
    } else {
        assert(samples.push(next).drop_first() =~= Seq::<MetricSample>::empty());
        assert(first_traffic(Seq::<MetricSample>::empty()) is None);
        assert(samples.push(next)[0] == next);
    }
}

proof fn lemma_trend_after_keeps_newest<T>(items: Seq<T>, item: Option<T>, capacity: nat)
    ensures
        trend_after(keep_newest(items, capacity), item, capacity) == keep_newest(
            match item {
                Some(x) => items.push(x),
                None => items,
            },
            capacity,
        ),
{
    if let Some(x) = item {
        assert(keep_newest(keep_newest(items, capacity).push(x), capacity) =~= keep_newest(
            items.push(x),
            capacity,
        ));
    }
}

/// Over any history, a new reducer's session starts at the first sample with
/// traffic counters, and its trends hold the newest `capacity` of the speeds,
/// battery levels and temperatures that the samples yield, oldest first.
pub proof fn lemma_history(capacity: nat, samples: Seq<MetricSample>)
    ensures
        after_all(fresh_view(capacity), samples).baseline == first_traffic(samples),
        after_all(fresh_view(capacity), samples).previous == last_taken(samples),
        after_all(fresh_view(capacity), samples).speed_trend == keep_newest(history_speeds(samples), capacity),
        after_all(fresh_view(capacity), samples).battery_trend == keep_newest(history_levels(samples), capacity),
        after_all(fresh_view(capacity), samples).temperature_trend == keep_newest(
            history_temperatures(samples),
            capacity,
        ),
        after_all(fresh_view(capacity), samples).trend_capacity == capacity,
    decreases samples.len(),
{
    if samples.len() == 0 {
        assert(keep_newest(Seq::<SpeedSnapshot>::empty(), capacity) =~= Seq::<SpeedSnapshot>::empty());
        assert(keep_newest(Seq::<u8>::empty(), capacity) =~= Seq::<u8>::empty());
        assert(keep_newest(Seq::<i32>::empty(), capacity) =~= Seq::<i32>::empty());
    } else {
        let earlier = samples.drop_last();
        let now = samples.last();
        lemma_history(capacity, earlier);
        let view = after_all(fresh_view(capacity), earlier);
        assert(earlier.push(now) =~= samples);
        lemma_first_traffic_push(earlier, now);
        lemma_trend_after_keeps_newest(history_speeds(earlier), view.speed(now), capacity);
        lemma_trend_after_keeps_newest(history_levels(earlier), battery_level_of(now.battery), capacity);
        lemma_trend_after_keeps_newest(history_temperatures(earlier), temperature_of(now.battery), capacity);
    }
}

/// What the dashboard shows after a new reducer has taken `earlier` and then
/// `last`: the session is measured from the first sample with traffic
/// counters (no length and no traffic while there is none, and no traffic
/// while `last` has no counters); the update time, connected-device count and
/// battery are those of `last`; each trend holds the newest `capacity` items
/// that the whole history yields, so never more than `capacity`.
pub proof fn lemma_state_after_history(
    capacity: nat,
    earlier: Seq<MetricSample>,
    last: MetricSample,
    state: DashboardState,
)
    requires
        after_all(fresh_view(capacity), earlier).shows(last, state),
    ensures
        state.session_duration_millis == match first_traffic(earlier.push(last)) {
            Some((start, _)) => sat_sub(last.timestamp_millis, start),
            None => 0,
        },
        (state.session_rx_bytes, state.session_tx_bytes) == match (
            first_traffic(earlier.push(last)),
            traffic_of(last.traffic),
        ) {
            (Some((_, base)), Some(c)) => (
                Some(sat_sub(c.rx_bytes, base.rx_bytes)),
                Some(sat_sub(c.tx_bytes, base.tx_bytes)),
            ),
            _ => (None, None),
        },
        state.last_updated_millis == Some(last.timestamp_millis),
        state.connected_device_count == last.connected_device_count,
        state.battery == last.battery,
        state.speed_trend@ == keep_newest(history_speeds(earlier.push(last)), capacity),
        state.battery_trend@ == keep_newest(history_levels(earlier.push(last)), capacity),
        state.temperature_trend@ == keep_newest(history_temperatures(earlier.push(last)), capacity),
        state.speed_trend@.len() <= capacity,
        state.battery_trend@.len() <= capacity,
        state.temperature_trend@.len() <= capacity,
{
    let samples = earlier.push(last);
    assert(samples.drop_last() =~= earlier);
    lemma_history(capacity, samples);
    lemma_history(capacity, earlier);
}

/// Turns a stream of samples into dashboard states.
pub struct SessionReducer {
    baseline: Option<(u64, TrafficReading)>,
    previous: Option<(u64, Option<TrafficReading>)>,
    speed_trend: RingBuffer<SpeedSnapshot>,
    battery_trend: RingBuffer<u8>,
    temperature_trend: RingBuffer<i32>,
}

impl View for SessionReducer {
    type V = ReducerView;

    closed spec fn view(&self) -> ReducerView {
        ReducerView {
            baseline: self.baseline,
            previous: self.previous,
            speed_trend: self.speed_trend@,
            battery_trend: self.battery_trend@,
            temperature_trend: self.temperature_trend@,
            trend_capacity: self.speed_trend.capacity(),
        }
    }
}

fn saturating_mul_1000(x: u64) -> (r: u64)
    ensures
        r == sat_mul(x, 1000),
{
    if x > u64::MAX / 1000 {
        u64::MAX
    } else {
        x * 1000
    }
}

/// The text of an unavailability reason, as `localized` gives it.
pub fn localized_reason<'a>(reason: &'a str) -> (text: &'a str)
    ensures
        text@ == localized(reason@),
{
    let r = chars_of(reason);
    if chars_eq(&r, &chars_of("Traffic counters unavailable on this device")) {
        "此设备不允许读取流量计数"
    } else if chars_eq(&r, &chars_of("Connected count restricted by system")) {
        "系统限制读取连接设备数"
    } else if chars_eq(&r, &chars_of("Waiting for enough samples")) {
        "等待足够采样"
    } else if chars_eq(&r, &chars_of("Battery state unavailable")) {
        "无法读取电池状态"
    } else {
        reason
    }
}

impl SessionReducer {
    /// The three trends have the same capacity.
    pub closed spec fn wf(&self) -> bool {
        &&& self.battery_trend.capacity() == self.speed_trend.capacity()
        &&& self.temperature_trend.capacity() == self.speed_trend.capacity()
    }

    pub fn new(trend_capacity: usize) -> (reducer: Self)
        ensures
            reducer.wf(),
            reducer@.baseline is None,
            reducer@.previous is None,
            reducer@.speed_trend.len() == 0,
            reducer@.battery_trend.len() == 0,
            reducer@.temperature_trend.len() == 0,
            reducer@.trend_capacity == trend_capacity,
            reducer@ == fresh_view(trend_capacity as nat),
    {
        Self {
            baseline: None,
            previous: None,
            speed_trend: RingBuffer::new(trend_capacity),
            battery_trend: RingBuffer::new(trend_capacity),
            temperature_trend: RingBuffer::new(trend_capacity),
        }
    }

    /// Takes in one sample and returns what the dashboard shows after it.
    pub fn accept(&mut self, sample: MetricSample) -> (state: DashboardState)
        requires
            old(self).wf(),
        ensures
            final(self).wf(),
            final(self)@ == old(self)@.after(sample),
            old(self)@.shows(sample, state),
    {
        let current: Option<TrafficReading> = match &sample.traffic {
            MetricAvailability::Available(reading) => Some(*reading),
            MetricAvailability::Unavailable { .. } => None,
        };
        if self.baseline.is_none() {
            if let Some(reading) = current {
                self.baseline = Some((sample.timestamp_millis, reading));
            }
        }

        let speed = self.calculate_speed(sample.timestamp_millis, current);
        if let Some(s) = speed {
            self.speed_trend.push(s);
        }

        if let MetricAvailability::Available(battery) = &sample.battery {
            if let Some(level) = battery.level_percent {
                self.battery_trend.push(level);
            }
            if let Some(temperature) = battery.temperature_decicelsius {
                self.temperature_trend.push(temperature);
            }
        }

        let (session_rx_bytes, session_tx_bytes) = self.session_traffic(current);
        let (status, status_reason) = Self::classify(&sample, speed);
        let start_time = match self.baseline {
            Some((start, _)) => start,
            None => sample.timestamp_millis,
        };

        self.previous = Some((sample.timestamp_millis, current));

        let state = DashboardState {
            status,
            status_reason,
            session_duration_millis: sample.timestamp_millis.saturating_sub(start_time),
            session_rx_bytes,
            session_tx_bytes,
            speed,
            connected_device_count: sample.connected_device_count,
            battery: sample.battery,
            speed_trend: self.speed_trend.to_vec(),
            battery_trend: self.battery_trend.to_vec(),
            temperature_trend: self.temperature_trend.to_vec(),
            last_updated_millis: Some(sample.timestamp_millis),
        };
        proof {
            let next = old(self)@.after(sample);
            assert(state.speed_trend@ =~= next.speed_trend);
            assert(state.battery_trend@ =~= next.battery_trend);
            assert(state.temperature_trend@ =~= next.temperature_trend);
        }
        state
    }

    fn calculate_speed(&self, now: u64, current: Option<TrafficReading>) -> (speed: Option<SpeedSnapshot>)
        ensures
            speed == speed_between(self.previous, now, current),
    {
        let (then, previous_traffic) = match self.previous {
            Some(p) => p,
            None => return None,
        };
        let previous_traffic = match previous_traffic {
            Some(t) => t,
            None => return None,
        };
        let current_traffic = match current {
            Some(t) => t,
            None => return None,
        };
        let elapsed = match now.checked_sub(then) {
            Some(e) => e,
            None => return None,
        };
        if elapsed == 0 {
            return None;
        }
        Some(SpeedSnapshot {
            down_bytes_per_second: saturating_mul_1000(
                current_traffic.rx_bytes.saturating_sub(previous_traffic.rx_bytes),
            ) / elapsed,
            up_bytes_per_second: saturating_mul_1000(
                current_traffic.tx_bytes.saturating_sub(previous_traffic.tx_bytes),
            ) / elapsed,
        })
    }

    fn session_traffic(&self, current: Option<TrafficReading>) -> (traffic: (Option<u64>, Option<u64>))
        ensures
            traffic == session_traffic(self.baseline, current),
    {
        let base = match self.baseline {
            Some((_, b)) => b,
            None => return (None, None),
        };
        let c = match current {
            Some(c) => c,
            None => return (None, None),
        };
        (Some(c.rx_bytes.saturating_sub(base.rx_bytes)), Some(c.tx_bytes.saturating_sub(base.tx_bytes)))
    }

    fn classify(sample: &MetricSample, speed: Option<SpeedSnapshot>) -> (verdict: (SessionStatus, String))
        ensures
            verdict.0 == classification(*sample, speed).0,
            verdict.1@ == classification(*sample, speed).1,
    {
        if let MetricAvailability::Unavailable { reason } = &sample.traffic {
            return (SessionStatus::Risk, String::from_str(localized_reason(reason.as_str())));
        }
        let battery = match &sample.battery {
            MetricAvailability::Available(value) => value,
            MetricAvailability::Unavailable { reason } => {
                return (SessionStatus::Attention, String::from_str(localized_reason(reason.as_str())));
            },
        };
        let low_critical = match battery.level_percent {
            Some(level) => level < 10,
            None => false,
        };
        if low_critical && !battery.is_charging {
            return (SessionStatus::Risk, String::from_str("电量严重偏低"));
        }
        let hot = match battery.temperature_decicelsius {
            Some(t) => t >= 450,
            None => false,
        };
        if hot {
            return (SessionStatus::Risk, String::from_str("温度过高"));
        }
        let low = match battery.level_percent {
            Some(level) => level < 20,
            None => false,
        };
        if low {
            return (SessionStatus::Attention, String::from_str("电量偏低"));
        }
        let warm = match battery.temperature_decicelsius {
            Some(t) => t >= 400,
            None => false,
        };
        if warm {
            return (SessionStatus::Attention, String::from_str("温度偏高"));
        }
        if speed.is_none() {
            return (SessionStatus::Unknown, String::from_str("等待足够采样"));
        }
        (SessionStatus::Stable, String::from_str("热点会话状态稳定"))
    }
}

} // verus!
