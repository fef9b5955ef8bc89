use hotspot_hub::model::{
    BatteryReading, DashboardState, MetricAvailability, MetricSample, SessionStatus, SpeedSnapshot,
    TrafficReading,
};
use hotspot_hub::monitor::{format_battery, format_temperature, total_bytes, HotspotMonitor};
use hotspot_hub::platform::desktop::{
    DesktopBatterySource, DesktopConnectedDeviceCountSource, DesktopTrafficSource,
};
use hotspot_hub::reducer::{localized_reason, SessionReducer};
use hotspot_hub::sources::Clock;

fn sample(timestamp_millis: u64, rx: u64, tx: u64, battery: BatteryReading) -> MetricSample {
    MetricSample {
        timestamp_millis,
        traffic: MetricAvailability::Available(TrafficReading { rx_bytes: rx, tx_bytes: tx }),
        battery: MetricAvailability::Available(battery),
        connected_device_count: MetricAvailability::Available(1),
    }
}

fn healthy() -> BatteryReading {
    BatteryReading { level_percent: Some(80), temperature_decicelsius: Some(300), is_charging: false }
}

#[test]
fn first_sample_waits_for_speed() {
    let mut reducer = SessionReducer::new(4);
    let state = reducer.accept(sample(5_000, 100, 50, healthy()));
    assert_eq!(state.status, SessionStatus::Unknown);
    assert_eq!(state.status_reason, "等待足够采样");
    assert_eq!(state.session_duration_millis, 0);
    assert_eq!(state.session_rx_bytes, Some(0));
    assert_eq!(state.session_tx_bytes, Some(0));
    assert_eq!(state.speed, None);
    assert_eq!(state.battery_trend, vec![80]);
    assert_eq!(state.temperature_trend, vec![300]);
    assert_eq!(state.last_updated_millis, Some(5_000));
}

#[test]
fn unavailable_battery_needs_attention_with_localized_reason() {
    let mut reducer = SessionReducer::new(4);
    let mut s = sample(1_000, 0, 0, healthy());
    s.battery = MetricAvailability::Unavailable { reason: "Battery state unavailable".into() };
    let state = reducer.accept(s);
    assert_eq!(state.status, SessionStatus::Attention);
    assert_eq!(state.status_reason, "无法读取电池状态");
    assert!(state.battery_trend.is_empty());
}

#[test]
fn unknown_reasons_are_shown_as_they_are() {
    assert_eq!(localized_reason("Something else"), "Something else");
    assert_eq!(localized_reason("Waiting for enough samples"), "等待足够采样");
    assert_eq!(localized_reason("Connected count restricted by system"), "系统限制读取连接设备数");
}

#[test]
fn battery_and_temperature_thresholds() {
    let cases = [
        (Some(9), Some(300), false, SessionStatus::Risk, "电量严重偏低"),
        (Some(9), Some(300), true, SessionStatus::Attention, "电量偏低"),
        (Some(50), Some(450), true, SessionStatus::Risk, "温度过高"),
        (Some(50), Some(449), true, SessionStatus::Attention, "温度偏高"),
        (Some(19), Some(300), false, SessionStatus::Attention, "电量偏低"),
        (Some(50), Some(400), false, SessionStatus::Attention, "温度偏高"),
        (Some(20), Some(399), false, SessionStatus::Stable, "热点会话状态稳定"),
        (None, None, false, SessionStatus::Stable, "热点会话状态稳定"),
    ];
    for (level, temperature, charging, status, reason) in cases {
        let mut reducer = SessionReducer::new(4);
        reducer.accept(sample(1_000, 0, 0, healthy()));
        let battery = BatteryReading {
            level_percent: level,
            temperature_decicelsius: temperature,
            is_charging: charging,
        };
        let state = reducer.accept(sample(2_000, 10, 10, battery));
        assert_eq!(state.status, status, "{level:?} {temperature:?} {charging}");
        assert_eq!(state.status_reason, reason);
    }
}

#[test]
fn baseline_is_kept_after_unavailable_samples() {
    let mut reducer = SessionReducer::new(4);
    let mut gap = sample(500, 0, 0, healthy());
    gap.traffic = MetricAvailability::Unavailable { reason: "x".into() };
    let state = reducer.accept(gap.clone());
    assert_eq!(state.session_rx_bytes, None);
    assert_eq!(state.session_duration_millis, 0);
    reducer.accept(sample(1_000, 1_000, 100, healthy()));
    reducer.accept(gap.clone());
    let state = reducer.accept(sample(4_000, 9_000, 700, healthy()));
    assert_eq!(state.session_duration_millis, 3_000);
    assert_eq!(state.session_rx_bytes, Some(8_000));
    assert_eq!(state.session_tx_bytes, Some(600));
    // The previous sample had no counters: no speed.
    assert_eq!(state.speed, None);
}

#[test]
fn counters_going_backwards_saturate() {
    let mut reducer = SessionReducer::new(4);
    reducer.accept(sample(1_000, 5_000, 5_000, healthy()));
    let state = reducer.accept(sample(1_500, 1_000, 6_000, healthy()));
    assert_eq!(state.session_rx_bytes, Some(0));
    assert_eq!(state.session_tx_bytes, Some(1_000));
    assert_eq!(
        state.speed,
        Some(SpeedSnapshot { down_bytes_per_second: 0, up_bytes_per_second: 2_000 })
    );
}

#[test]
fn no_speed_when_time_does_not_advance() {
    let mut reducer = SessionReducer::new(4);
    reducer.accept(sample(1_000, 0, 0, healthy()));
    let state = reducer.accept(sample(1_000, 10, 10, healthy()));
    assert_eq!(state.speed, None);
    assert_eq!(state.status, SessionStatus::Unknown);
    let state = reducer.accept(sample(900, 20, 20, healthy()));
    assert_eq!(state.speed, None);
    assert_eq!(state.session_duration_millis, 0);
}

#[test]
fn huge_traffic_saturates_rate() {
    let mut reducer = SessionReducer::new(4);
    reducer.accept(sample(1_000, 0, 0, healthy()));
    let state = reducer.accept(sample(2_000, u64::MAX, 0, healthy()));
    assert_eq!(state.speed.unwrap().down_bytes_per_second, u64::MAX / 1_000);
}

#[test]
fn zero_capacity_keeps_no_trend() {
    let mut reducer = SessionReducer::new(0);
    reducer.accept(sample(1_000, 0, 0, healthy()));
    let state = reducer.accept(sample(2_000, 10, 10, healthy()));
    assert!(state.speed_trend.is_empty());
    assert!(state.battery_trend.is_empty());
    assert!(state.temperature_trend.is_empty());
    assert!(state.speed.is_some());
}

#[test]
fn dashboard_starts_waiting() {
    let state = DashboardState::initial();
    assert_eq!(state.status, SessionStatus::Unknown);
    assert_eq!(state.status_reason, "等待足够采样");
    assert_eq!(
        state.connected_device_count,
        MetricAvailability::Unavailable { reason: "等待足够采样".into() }
    );
    assert_eq!(state.last_updated_millis, None);
}

#[test]
fn totals_and_battery_text() {
    assert_eq!(total_bytes(Some(2), Some(3)), Some(5));
    assert_eq!(total_bytes(None, Some(3)), None);
    assert_eq!(total_bytes(Some(2), None), None);
    let reading = |level, temperature| {
        MetricAvailability::Available(BatteryReading {
            level_percent: level,
            temperature_decicelsius: temperature,
            is_charging: false,
        })
    };
    assert_eq!(format_battery(&reading(Some(68), None)), "68%");
    assert_eq!(format_battery(&reading(None, None)), "--");
    assert_eq!(format_temperature(&reading(None, Some(390))), "39°C");
    assert_eq!(format_temperature(&reading(None, Some(365))), "36°C");
    assert_eq!(format_temperature(&reading(None, Some(375))), "38°C");
    assert_eq!(format_temperature(&reading(None, Some(366))), "37°C");
    assert_eq!(format_temperature(&reading(None, Some(-3))), "-0°C");
    assert_eq!(format_temperature(&reading(None, Some(-56))), "-6°C");
    assert_eq!(format_temperature(&reading(None, None)), "--");
    let unavailable = MetricAvailability::Unavailable { reason: "x".into() };
    assert_eq!(format_battery(&unavailable), "--");
    assert_eq!(format_temperature(&unavailable), "--");
}

#[test]
fn temperature_text_matches_float_rounding() {
    for tenths in -600..=900 {
        let value = MetricAvailability::Available(BatteryReading {
            level_percent: None,
            temperature_decicelsius: Some(tenths),
            is_charging: false,
        });
        let celsius = tenths as f32 / 10.0;
        assert_eq!(format_temperature(&value), format!("{celsius:.0}°C"), "{tenths}");
    }
}

struct FixedClock(u64);

impl Clock for FixedClock {
    fn now_millis(&self) -> u64 {
        self.0
    }
}

#[test]
fn desktop_monitor_samples_its_sources() {
    let mut monitor = HotspotMonitor::new(
        DesktopTrafficSource::new(),
        DesktopBatterySource,
        DesktopConnectedDeviceCountSource,
        FixedClock(1_000),
    );
    let state = monitor.sample();
    assert_eq!(state.session_rx_bytes, Some(0));
    assert_eq!(state.connected_device_count, MetricAvailability::Available(4));
    assert_eq!(format_battery(&state.battery), "68%");
    assert_eq!(format_temperature(&state.battery), "39°C");
    assert_eq!(state.status, SessionStatus::Unknown);
    let state = monitor.sample();
    // Same clock reading: no speed, but the traffic grew.
    assert_eq!(state.session_rx_bytes, Some(1_550_000));
    assert_eq!(state.session_tx_bytes, Some(390_000));
    assert_eq!(state.speed, None);
}
