use vstd::prelude::*;
use vstd::string::StringExecFns;
use crate::cache::ReadingCache;
use crate::text::{chars_of, trim, trim_from};
use crate::model::{BatteryReading, MetricAvailability, TrafficReading};

verus! {

/// How long a connected-device count is reused before it is read again.
pub const CONNECTED_COUNT_REFRESH_MILLIS: u64 = 10_000;

/// The traffic reading from the two counters that Android reports.
pub fn traffic_from_counters(rx: i64, tx: i64) -> (traffic: MetricAvailability<TrafficReading>)
    ensures
        rx < 0 || tx < 0 ==> (traffic matches MetricAvailability::Unavailable { reason }
            && reason@ == "Traffic counters unavailable on this device"@),
        rx >= 0 && tx >= 0 ==> traffic == MetricAvailability::Available(
            TrafficReading { rx_bytes: rx as u64, tx_bytes: tx as u64 },
        ),
{
    if rx < 0 || tx < 0 {
        return MetricAvailability::Unavailable {
            reason: String::from_str("Traffic counters unavailable on this device"),
        };
    }
    MetricAvailability::Available(TrafficReading { rx_bytes: rx as u64, tx_bytes: tx as u64 })
}

/// The battery level in percent from `EXTRA_LEVEL` and `EXTRA_SCALE`: the
/// quotient of `level * 100` by `scale`, clamped to 0..=100, when `level` is
/// not negative and `scale` is positive.
pub open spec fn level_percent(level: i32, scale: i32) -> Option<u8> {
    if level >= 0 && scale > 0 {
        let percent = (level * 100) / (scale as int);
        Some((if percent > 100 { 100 } else { percent }) as u8)
    } else {
        None
    }
}

/// The battery reading from the extras of the battery intent: level, scale,
/// temperature in tenths of a degree (`i32::MIN` when missing) and status
/// (2 charging, 5 full).
pub fn battery_from_extras(level: i32, scale: i32, temperature: i32, status: i32) -> (reading: BatteryReading)
    requires
        level >= 0 && scale > 0 ==> level * 100 <= i32::MAX,
    ensures
        reading.level_percent == level_percent(level, scale),
        reading.temperature_decicelsius == (if temperature == i32::MIN { None } else { Some(temperature) }),
        reading.is_charging == (status == 2 || status == 5),
{
    let level_percent = if level >= 0 && scale > 0 {
        let percent = level * 100 / scale;
        let clamped = if percent < 0 {
            0
        } else if percent > 100 {
            100
        } else {
            percent
        };
        Some(clamped as u8)
    } else {
        None
    };
    let temperature_decicelsius = if temperature == i32::MIN {
        None
    } else {
        Some(temperature)
    };
    BatteryReading { level_percent, temperature_decicelsius, is_charging: status == 2 || status == 5 }
}

/// The connected-device count to show for what the probes found: the count,
/// or the reason that it is restricted (never a count of zero).
pub fn connected_count_availability(count: Option<u32>) -> (value: MetricAvailability<u32>)
    ensures
        count matches Some(c) ==> value == MetricAvailability::<u32>::Available(c),
        count is None ==> (value matches MetricAvailability::Unavailable { reason }
            && reason@ == "Connected count restricted by system"@),
{
    match count {
        Some(c) => MetricAvailability::Available(c),
        None => MetricAvailability::Unavailable {
            reason: String::from_str("Connected count restricted by system"),
        },
    }
}

/// What a system command printed: its standard output, followed by a line
/// break and its standard error when that holds more than whitespace.
pub open spec fn command_text(stdout: Seq<char>, stderr: Seq<char>) -> Seq<char> {
    if trim(stderr).len() == 0 {
        stdout
    } else {
        stdout + "\n"@ + stderr
    }
}

/// The text of a system command's output, as `command_text` says.
pub fn command_output(stdout: &str, stderr: &str) -> (text: String)
    ensures
        text@ == command_text(stdout@, stderr@),
{
    let err = chars_of(stderr);
    let trimmed = trim_from(&err, 0);
    assert(err@.skip(0) =~= err@);
    let mut text = String::from_str(stdout);
    if trimmed.len() > 0 {
        text.append("\n");
        text.append(stderr);
    }
    text
}

/// An empty cache for the connected-device count.
pub fn connected_count_cache() -> (cache: ReadingCache<u32>)
    ensures
        cache.refresh_after() == CONNECTED_COUNT_REFRESH_MILLIS,
        cache.entry() is None,
{
    ReadingCache::new(CONNECTED_COUNT_REFRESH_MILLIS)
}

/// The connected-device count at `now` (milliseconds on a clock that the
/// caller keeps): the kept one while it is fresh, without calling `probe`;
/// otherwise the count that `probe` finds, or the reason that it is
/// restricted, which is kept as read at `now`.
pub fn cached_connected_count<F: FnOnce() -> Option<u32>>(
    cache: &mut ReadingCache<u32>,
    now: u64,
    probe: F,
) -> (count: MetricAvailability<u32>)
    requires
        probe.requires(()),
    ensures
        old(cache).fresh_at(now) matches Some(kept) ==> count == kept && *final(cache) == *old(cache),
        old(cache).fresh_at(now) is None ==> final(cache).entry() == Some((now, count))
            && final(cache).refresh_after() == old(cache).refresh_after()
            && exists|found: Option<u32>| {
                &&& probe.ensures((), found)
                &&& found matches Some(c) ==> count == MetricAvailability::<u32>::Available(c)
                &&& found is None ==> (count matches MetricAvailability::Unavailable { reason }
                    && reason@ == "Connected count restricted by system"@)
            },
{
    match cache.fresh_reading(now) {
        Some(kept) => kept,
        None => {
            let found = probe();
            cache.store(now, connected_count_availability(found))
        },
    }
}

/// The ways of reading the connected-device count, in the order they are tried.
#[derive(Clone, Copy, Debug, PartialEq, Eq, Structural)]
pub enum CountProbe {
    /// A netlink dump of the kernel's neighbour table.
    Netlink,
    /// `ip neigh show`.
    IpNeighbor,
    /// `/proc/net/arp`.
    ArpTable,
    /// `dumpsys wifi`.
    DumpsysWifi,
}

/// What to do after a probe.
#[derive(Clone, Copy, Debug, PartialEq, Eq, Structural)]
pub enum CountProbeStep {
    /// Stop with this count.
    Finished(Option<u32>),
    /// Try this probe next.
    Next(CountProbe),
}

/// The probe tried after `probe` when it found nothing.
pub open spec fn probe_after(probe: CountProbe) -> Option<CountProbe> {
    match probe {
        CountProbe::Netlink => Some(CountProbe::IpNeighbor),
        CountProbe::IpNeighbor => Some(CountProbe::ArpTable),
        CountProbe::ArpTable => Some(CountProbe::DumpsysWifi),
        CountProbe::DumpsysWifi => None,
    }
}

/// Decides what follows a probe that found `found`: the first count found
/// ends the search; the last probe ends it either way.
pub fn next_count_probe(probe: CountProbe, found: Option<u32>) -> (step: CountProbeStep)
    ensures
        found is Some ==> step == CountProbeStep::Finished(found),
        found is None ==> step == match probe_after(probe) {
            Some(next) => CountProbeStep::Next(next),
            None => CountProbeStep::Finished(None),
        },
{
    if found.is_some() {
        return CountProbeStep::Finished(found);
    }
    match probe {
        CountProbe::Netlink => CountProbeStep::Next(CountProbe::IpNeighbor),
        CountProbe::IpNeighbor => CountProbeStep::Next(CountProbe::ArpTable),
        CountProbe::ArpTable => CountProbeStep::Next(CountProbe::DumpsysWifi),
        CountProbe::DumpsysWifi => CountProbeStep::Finished(None),
    }
}

} // verus!
