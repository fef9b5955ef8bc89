use hotspot_hub::model::{BatteryReading, MetricAvailability, TrafficReading};
use hotspot_hub::monitor::{on_tick, tick_delay_millis, HotspotMonitor, TickStep};
use hotspot_hub::platform::desktop::DesktopConnectedDeviceCountSource;
use hotspot_hub::sources::{BatterySource, Clock, TrafficSource};
use std::cell::Cell;
use std::rc::Rc;

struct SteppingClock {
    next: Cell<u64>,
    step: u64,
    reads: Rc<Cell<u32>>,
}

impl Clock for SteppingClock {
    fn now_millis(&self) -> u64 {
        let now = self.next.get();
        self.next.set(now + self.step);
        self.reads.set(self.reads.get() + 1);
        now
    }
}

struct CountingTraffic {
    reads: Rc<Cell<u32>>,
}

impl TrafficSource for CountingTraffic {
    fn read_traffic(&mut self) -> MetricAvailability<TrafficReading> {
        self.reads.set(self.reads.get() + 1);
        let total = u64::from(self.reads.get()) * 1_000;
        MetricAvailability::Available(TrafficReading { rx_bytes: total, tx_bytes: total })
    }
}

struct CountingBattery {
    reads: Rc<Cell<u32>>,
}

impl BatterySource for CountingBattery {
    fn read_battery(&mut self) -> MetricAvailability<BatteryReading> {
        self.reads.set(self.reads.get() + 1);
        let level = 90 - self.reads.get() as u8;
        MetricAvailability::Available(BatteryReading {
            level_percent: Some(level),
            temperature_decicelsius: Some(300),
            is_charging: false,
        })
    }
}

#[test]
fn foreground_samples_every_second_background_every_minute() {
    assert_eq!(tick_delay_millis(true), 1_000);
    assert_eq!(tick_delay_millis(false), 60_000);
}

#[test]
fn ticks_stop_with_the_window_and_refresh_only_in_the_foreground() {
    assert_eq!(on_tick(false, true), TickStep::Stop);
    assert_eq!(on_tick(false, false), TickStep::Stop);
    assert_eq!(on_tick(true, true), TickStep::Sample { refresh_ui: true });
    assert_eq!(on_tick(true, false), TickStep::Sample { refresh_ui: false });
}

#[test]
fn battery_is_read_less_often_than_speed() {
    let clock_reads = Rc::new(Cell::new(0));
    let traffic_reads = Rc::new(Cell::new(0));
    let battery_reads = Rc::new(Cell::new(0));
    let mut monitor = HotspotMonitor::new(
        CountingTraffic { reads: traffic_reads.clone() },
        CountingBattery { reads: battery_reads.clone() },
        DesktopConnectedDeviceCountSource,
        SteppingClock { next: Cell::new(0), step: 1_000, reads: clock_reads.clone() },
    );
    let mut trends = Vec::new();
    for _ in 0..12 {
        trends.push(monitor.sample().battery_trend);
    }
    assert_eq!(clock_reads.get(), 12);
    assert_eq!(traffic_reads.get(), 12);
    // Read at 0 s and again at 10 s, the first reading reused in between.
    assert_eq!(battery_reads.get(), 2);
    assert_eq!(trends[9], vec![89; 10]);
    assert_eq!(trends[10][10], 88);
    assert_eq!(trends[11][11], 88);
}

#[test]
fn battery_is_read_at_every_background_sample() {
    let battery_reads = Rc::new(Cell::new(0));
    let mut monitor = HotspotMonitor::new(
        CountingTraffic { reads: Rc::new(Cell::new(0)) },
        CountingBattery { reads: battery_reads.clone() },
        DesktopConnectedDeviceCountSource,
        SteppingClock { next: Cell::new(0), step: 60_000, reads: Rc::new(Cell::new(0)) },
    );
    for _ in 0..3 {
        monitor.sample();
    }
    assert_eq!(battery_reads.get(), 3);
}

#[test]
fn recorded_sample_is_what_reaches_the_reducer() {
    let mut monitor = HotspotMonitor::new(
        CountingTraffic { reads: Rc::new(Cell::new(0)) },
        CountingBattery { reads: Rc::new(Cell::new(0)) },
        DesktopConnectedDeviceCountSource,
        SteppingClock { next: Cell::new(0), step: 1_000, reads: Rc::new(Cell::new(0)) },
    );
    let battery = BatteryReading { level_percent: Some(42), temperature_decicelsius: Some(255), is_charging: false };
    assert!(monitor.battery_due(5_000));
    let state = monitor.record_sample(
        5_000,
        MetricAvailability::Available(TrafficReading { rx_bytes: 100, tx_bytes: 50 }),
        Some(MetricAvailability::Available(battery)),
        MetricAvailability::Available(3),
    );
    assert_eq!(state.last_updated_millis, Some(5_000));
    assert_eq!(state.battery, MetricAvailability::Available(battery));
    assert_eq!(state.connected_device_count, MetricAvailability::Available(3));
    assert!(!monitor.battery_due(14_999));
    let state = monitor.record_sample(
        7_000,
        MetricAvailability::Available(TrafficReading { rx_bytes: 2_100, tx_bytes: 1_050 }),
        None,
        MetricAvailability::Available(4),
    );
    // The kept battery reading is used.
    assert_eq!(state.battery, MetricAvailability::Available(battery));
    assert_eq!(state.session_rx_bytes, Some(2_000));
    assert_eq!(state.session_duration_millis, 2_000);
    assert!(monitor.battery_due(15_000));
}
