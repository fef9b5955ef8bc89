use hotspot_hub::connected_devices::{
    estimate_count_from_neighbors, neighbor_dump_outcome, summarize_arp_table, NeighborEntry,
    NeighborTally,
};
use hotspot_hub::model::{BatteryReading, MetricAvailability, MetricSample, SpeedSnapshot, TrafficReading};
use hotspot_hub::netlink::ChunkEnd;
use hotspot_hub::platform::android::command_output;
use hotspot_hub::platform::desktop::DesktopTrafficSource;
use hotspot_hub::reducer::SessionReducer;
use hotspot_hub::sources::TrafficSource;

fn reading(ts: u64, traffic: Option<(u64, u64)>, level: Option<u8>) -> MetricSample {
    MetricSample {
        timestamp_millis: ts,
        traffic: match traffic {
            Some((rx, tx)) => MetricAvailability::Available(TrafficReading { rx_bytes: rx, tx_bytes: tx }),
            None => MetricAvailability::Unavailable { reason: "gone".into() },
        },
        battery: MetricAvailability::Available(BatteryReading {
            level_percent: level,
            temperature_decicelsius: Some(310),
            is_charging: true,
        }),
        connected_device_count: MetricAvailability::Available(2),
    }
}

#[test]
fn session_and_trends_follow_the_whole_history() {
    let mut reducer = SessionReducer::new(2);
    reducer.accept(reading(1_000, None, Some(50)));
    reducer.accept(reading(2_000, Some((10_000, 1_000)), None));
    reducer.accept(reading(3_000, Some((12_000, 1_500)), Some(51)));
    reducer.accept(reading(4_000, None, Some(52)));
    reducer.accept(reading(5_000, Some((20_000, 3_000)), Some(53)));
    let state = reducer.accept(reading(7_000, Some((30_000, 4_000)), Some(54)));
    // Measured from the first sample with counters, at 2 s.
    assert_eq!(state.session_duration_millis, 5_000);
    assert_eq!(state.session_rx_bytes, Some(20_000));
    assert_eq!(state.session_tx_bytes, Some(3_000));
    assert_eq!(state.last_updated_millis, Some(7_000));
    // Speeds came at 3 s and 7 s (the one at 5 s followed a sample without counters).
    assert_eq!(
        state.speed_trend,
        vec![
            SpeedSnapshot { down_bytes_per_second: 2_000, up_bytes_per_second: 500 },
            SpeedSnapshot { down_bytes_per_second: 5_000, up_bytes_per_second: 500 },
        ]
    );
    assert_eq!(state.battery_trend, vec![53, 54]);
    assert_eq!(state.temperature_trend, vec![310, 310]);
}

#[test]
fn no_counters_yet_means_no_session() {
    let mut reducer = SessionReducer::new(3);
    reducer.accept(reading(1_000, None, Some(50)));
    let state = reducer.accept(reading(9_000, None, Some(50)));
    assert_eq!(state.session_duration_millis, 0);
    assert_eq!(state.session_rx_bytes, None);
    assert_eq!(state.speed_trend, vec![]);
}

#[test]
fn desktop_counters_after_k_reads() {
    let mut source = DesktopTrafficSource::new();
    let mut last = (0, 0);
    for k in 1..=5u64 {
        let MetricAvailability::Available(r) = source.read_traffic() else {
            panic!("desktop traffic is always available");
        };
        assert_eq!(r.rx_bytes, 1_000_000 + 1_550_000 * k);
        assert_eq!(r.tx_bytes, 250_000 + 390_000 * k);
        assert!(r.rx_bytes > last.0 && r.tx_bytes > last.1);
        last = (r.rx_bytes, r.tx_bytes);
    }
}

#[test]
fn tally_adds_at_most_one_client_per_entry() {
    let mac = [0xaa, 0xbb, 0xcc, 0xdd, 0xee, 0x01];
    let entries = [
        NeighborEntry { interface_name: "ap0", state: 0x02, link_address: &mac },
        NeighborEntry { interface_name: "ap0", state: 0x02, link_address: &mac },
        NeighborEntry { interface_name: "wlan0", state: 0x02, link_address: &[1, 2, 3, 4, 5, 6] },
        NeighborEntry { interface_name: "ap0", state: 0x08, link_address: &[1, 2, 3, 4, 5, 7] },
    ];
    let mut tally = NeighborTally::new();
    let mut counts = Vec::new();
    for entry in &entries {
        tally.add_neighbor_entry(entry.interface_name, entry.state, entry.link_address);
        counts.push(tally.count());
    }
    assert_eq!(counts, vec![Some(1), Some(1), Some(1), Some(2)]);
    assert_eq!(neighbor_dump_outcome(&tally, ChunkEnd::Done), Some(estimate_count_from_neighbors(&entries)));
}

#[test]
fn arp_summary_lists_the_first_eight_rows() {
    assert_eq!(summarize_arp_table(""), "arp entries=<empty>");
    assert_eq!(summarize_arp_table("IP address HW type Flags HW address Mask Device\n"), "arp entries=<empty>");
    let arp = "\
IP address HW type Flags HW address Mask Device
10.0.0.2 0x1 0x2 aa:bb:cc:dd:ee:01 * ap0
short row
10.0.0.3 0x1 0x0 aa:bb:cc:dd:ee:02 * wlan0\r
";
    assert_eq!(summarize_arp_table(arp), "arp entries=flags=0x2 iface=ap0, flags=0x0 iface=wlan0");
    let mut many = String::from("header\n");
    for i in 0..10 {
        many.push_str(&format!("10.0.0.{i} 0x1 0x{i} mac * ap{i}\n"));
    }
    let summary = summarize_arp_table(&many);
    assert!(summary.ends_with("flags=0x7 iface=ap7"));
    assert_eq!(summary.matches("flags=").count(), 8);
}

#[test]
fn command_output_adds_stderr_only_when_it_says_something() {
    assert_eq!(command_output("out", ""), "out");
    assert_eq!(command_output("out", " \n\t"), "out");
    assert_eq!(command_output("out", "err"), "out\nerr");
    assert_eq!(command_output("", " err\n"), "\n err\n");
}
