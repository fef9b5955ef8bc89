use vstd::prelude::*;
use crate::model::{BatteryReading, MetricAvailability, TrafficReading};
use crate::sources::{BatterySource, ConnectedDeviceCountSource, TrafficSource};

verus! {

/// Counters that grow by 1 550 000 bytes received and 390 000 bytes sent per
/// reading, for running the dashboard away from a phone.
pub struct DesktopTrafficSource {
    rx: u64,
    tx: u64,
}

impl DesktopTrafficSource {
    /// The received-bytes counter.
    pub closed spec fn rx(&self) -> u64 {
        self.rx
    }

    /// The sent-bytes counter.
    pub closed spec fn tx(&self) -> u64 {
        self.tx
    }

    pub fn new() -> (source: Self)
        ensures
            source.rx() == 1_000_000,
            source.tx() == 250_000,
            source.rx() == desktop_rx_after(0) && source.tx() == desktop_tx_after(0),
    {
        Self { rx: 1_000_000, tx: 250_000 }
    }
}

impl TrafficSource for DesktopTrafficSource {
    fn read_traffic(&mut self) -> (reading: MetricAvailability<TrafficReading>)
        ensures
            final(self).rx() == (old(self).rx() + 1_550_000) % 0x1_0000_0000_0000_0000,
            final(self).tx() == (old(self).tx() + 390_000) % 0x1_0000_0000_0000_0000,
            reading == MetricAvailability::Available(
                TrafficReading { rx_bytes: final(self).rx(), tx_bytes: final(self).tx() },
            ),
    {
        self.rx = self.rx.wrapping_add(1_550_000);
        self.tx = self.tx.wrapping_add(390_000);
        MetricAvailability::Available(TrafficReading { rx_bytes: self.rx, tx_bytes: self.tx })
    }
}

/// The received-bytes counter after `reads` readings.
pub open spec fn desktop_rx_after(reads: nat) -> nat {
    1_000_000 + 1_550_000 * reads
}

/// The sent-bytes counter after `reads` readings.
pub open spec fn desktop_tx_after(reads: nat) -> nat {
    250_000 + 390_000 * reads
}

/// The counters grow by a fixed step: a source at its `reads`-th value moves
/// to its next one at the next reading, while the received counter fits in a
/// `u64`, so that the `k`-th reading gives `1 000 000 + 1 550 000 k` bytes
/// received and `250 000 + 390 000 k` sent, both rising from reading to
/// reading.
pub proof fn lemma_desktop_counters_step(
    before: DesktopTrafficSource,
    after: DesktopTrafficSource,
    reads: nat,
)
    requires
        before.rx() == desktop_rx_after(reads),
        before.tx() == desktop_tx_after(reads),
        after.rx() == (before.rx() + 1_550_000) % 0x1_0000_0000_0000_0000,
        after.tx() == (before.tx() + 390_000) % 0x1_0000_0000_0000_0000,
        desktop_rx_after(reads + 1) <= u64::MAX,
    ensures
        after.rx() == desktop_rx_after(reads + 1),
        after.tx() == desktop_tx_after(reads + 1),
        after.rx() > before.rx(),
        after.tx() > before.tx(),
{
    assert(desktop_rx_after(reads + 1) == desktop_rx_after(reads) + 1_550_000) by (nonlinear_arith);
    assert(desktop_tx_after(reads + 1) == desktop_tx_after(reads) + 390_000) by (nonlinear_arith);
    assert(desktop_tx_after(reads + 1) <= desktop_rx_after(reads + 1)) by (nonlinear_arith);
}

/// A battery at 68 %, 39.0 °C, charging.
pub struct DesktopBatterySource;

impl BatterySource for DesktopBatterySource {
    fn read_battery(&mut self) -> (reading: MetricAvailability<BatteryReading>)
        ensures
            reading == MetricAvailability::Available(BatteryReading {
                level_percent: Some(68u8),
                temperature_decicelsius: Some(390i32),
                is_charging: true,
            }),
    {
        MetricAvailability::Available(BatteryReading {
            level_percent: Some(68),
            temperature_decicelsius: Some(390),
            is_charging: true,
        })
    }
}

/// Four connected devices.
pub struct DesktopConnectedDeviceCountSource;

impl ConnectedDeviceCountSource for DesktopConnectedDeviceCountSource {
    fn read_connected_device_count(&mut self) -> (count: MetricAvailability<u32>)
        ensures
            count == MetricAvailability::<u32>::Available(4),
    {
        MetricAvailability::Available(4)
    }
}

} // verus!
