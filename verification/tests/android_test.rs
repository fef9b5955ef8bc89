use hotspot_hub::model::{MetricAvailability, TrafficReading};
use hotspot_hub::platform::android::{
    battery_from_extras, cached_connected_count, connected_count_availability, connected_count_cache,
    next_count_probe,
    traffic_from_counters, CountProbe, CountProbeStep,
};

#[test]
fn negative_counters_are_unavailable() {
    assert_eq!(
        traffic_from_counters(-1, 5),
        MetricAvailability::Unavailable { reason: "Traffic counters unavailable on this device".into() }
    );
    assert_eq!(
        traffic_from_counters(10, 5),
        MetricAvailability::Available(TrafficReading { rx_bytes: 10, tx_bytes: 5 })
    );
}

#[test]
fn battery_extras() {
    let reading = battery_from_extras(45, 50, 312, 2);
    assert_eq!(reading.level_percent, Some(90));
    assert_eq!(reading.temperature_decicelsius, Some(312));
    assert!(reading.is_charging);
    let reading = battery_from_extras(150, 100, i32::MIN, 3);
    assert_eq!(reading.level_percent, Some(100));
    assert_eq!(reading.temperature_decicelsius, None);
    assert!(!reading.is_charging);
    assert_eq!(battery_from_extras(-1, 100, 0, 5).level_percent, None);
    assert_eq!(battery_from_extras(50, 0, 0, 5).level_percent, None);
    assert!(battery_from_extras(50, 0, 0, 5).is_charging);
}

#[test]
fn restricted_count_is_never_zero() {
    assert_eq!(connected_count_availability(Some(0)), MetricAvailability::Available(0));
    assert_eq!(
        connected_count_availability(None),
        MetricAvailability::Unavailable { reason: "Connected count restricted by system".into() }
    );
}

#[test]
fn count_cache_lasts_ten_seconds() {
    let mut cache = connected_count_cache();
    assert_eq!(cached_connected_count(&mut cache, 5_000, || Some(3)), MetricAvailability::Available(3));
    // Within ten seconds the kept count is reused and the probes do not run.
    assert_eq!(
        cached_connected_count(&mut cache, 14_999, || panic!("probed while fresh")),
        MetricAvailability::Available(3)
    );
    // Ten seconds on, the probes run again; what they find replaces the count.
    assert_eq!(
        cached_connected_count(&mut cache, 15_000, || None),
        MetricAvailability::Unavailable { reason: "Connected count restricted by system".into() }
    );
    assert_eq!(
        cached_connected_count(&mut cache, 24_999, || Some(9)),
        MetricAvailability::Unavailable { reason: "Connected count restricted by system".into() }
    );
    assert_eq!(cached_connected_count(&mut cache, 25_000, || Some(9)), MetricAvailability::Available(9));
}

#[test]
fn count_cache_treats_a_clock_going_back_as_fresh() {
    let mut cache = connected_count_cache();
    assert_eq!(cached_connected_count(&mut cache, 50_000, || Some(1)), MetricAvailability::Available(1));
    assert_eq!(cached_connected_count(&mut cache, 10, || Some(2)), MetricAvailability::Available(1));
}

#[test]
fn probes_stop_at_first_count() {
    assert_eq!(next_count_probe(CountProbe::Netlink, Some(2)), CountProbeStep::Finished(Some(2)));
    assert_eq!(next_count_probe(CountProbe::Netlink, None), CountProbeStep::Next(CountProbe::IpNeighbor));
    assert_eq!(next_count_probe(CountProbe::IpNeighbor, None), CountProbeStep::Next(CountProbe::ArpTable));
    assert_eq!(next_count_probe(CountProbe::ArpTable, None), CountProbeStep::Next(CountProbe::DumpsysWifi));
    assert_eq!(next_count_probe(CountProbe::DumpsysWifi, None), CountProbeStep::Finished(None));
    assert_eq!(next_count_probe(CountProbe::DumpsysWifi, Some(0)), CountProbeStep::Finished(Some(0)));
}
