use hotspot_hub::connected_devices::{
    estimate_count_from_arp, estimate_count_from_dumpsys_wifi, estimate_count_from_ip_neigh,
    estimate_count_from_neighbors, NeighborEntry, NeighborTally,
};

#[test]
fn arp_reads_decimal_and_hex_flags() {
    let arp = "\
IP address HW type Flags HW address Mask Device
10.0.0.2 0x1 2 AA:BB:CC:DD:EE:01 * ap0
10.0.0.3 0x1 0x6 aa:bb:cc:dd:ee:02 * softap0
10.0.0.4 0x1 0xzz aa:bb:cc:dd:ee:03 * swlan0
10.0.0.5 0x1 +3 aa:bb:cc:dd:ee:04 * WLAN1_x
10.0.0.6 0x1 0x2 aa:bb:cc:dd:ee:05 * wlan10
";
    // ap0 (decimal 2), softap0 (0x6), WLAN1_x (+3); 0xzz reads as 0; wlan10 is not the hotspot.
    assert_eq!(estimate_count_from_arp(arp), Some(3));
}

#[test]
fn arp_counts_mac_case_insensitively_and_skips_unusable() {
    let arp = "header\n\
1 0x1 0x2 AA:BB:CC:DD:EE:FF * wlan1\n\
2 0x1 0x2 aa:bb:cc:dd:ee:ff * wlan1\n\
3 0x1 0x2 00:00:00:00:00:00 * wlan1\n\
4 0x1 0x2 <incomplete> * wlan1\n\
short line wlan1\n";
    assert_eq!(estimate_count_from_arp(arp), Some(1));
}

#[test]
fn arp_header_only_or_empty() {
    assert_eq!(estimate_count_from_arp(""), None);
    assert_eq!(estimate_count_from_arp("1 0x1 0x2 aa:bb:cc:dd:ee:ff * wlan1"), None);
}

#[test]
fn dumpsys_takes_first_readable_count() {
    let dump = "mNumAssociatedStations: many\n  x mNumAssociatedStations:\t7 \r\nmNumAssociatedStations: 9";
    assert_eq!(estimate_count_from_dumpsys_wifi(dump), Some(7));
    assert_eq!(estimate_count_from_dumpsys_wifi("mNumAssociatedStations: 4294967296"), None);
    assert_eq!(estimate_count_from_dumpsys_wifi("mNumAssociatedStations: 4294967295"), Some(u32::MAX));
    assert_eq!(estimate_count_from_dumpsys_wifi("mNumAssociatedStations:+3"), Some(3));
    assert_eq!(estimate_count_from_dumpsys_wifi("mNumAssociatedStations: -3"), None);
    assert_eq!(estimate_count_from_dumpsys_wifi("nothing here"), None);
}

#[test]
fn ip_neigh_requires_dev_address_state_and_lladdr() {
    let output = "\
10.0.0.2 dev wlan1 lladdr aa:bb:cc:dd:ee:01 PERMANENT
10.0.0.3 dev wlan1 lladdr aa:bb:cc:dd:ee:02 INCOMPLETE
10.0.0.4 dev wlan1 STALE
10.0.0.256 dev wlan1 lladdr aa:bb:cc:dd:ee:03 STALE
10.0.0.5 dev wlan1 lladdr AA:BB:CC:DD:EE:01 PROBE
+1.2.3.4 dev ap0 lladdr aa:bb:cc:dd:ee:04 REACHABLE
dev
";
    assert_eq!(estimate_count_from_ip_neigh(output), Some(2));
    assert_eq!(estimate_count_from_ip_neigh("10.0.0.2 dev eth0 lladdr aa:bb:cc:dd:ee:01 STALE"), None);
    assert_eq!(estimate_count_from_ip_neigh("10.0.0.2 dev wlan1 FAILED"), Some(0));
}

#[test]
fn neighbor_entries_need_six_nonzero_bytes() {
    let entries = [
        NeighborEntry { interface_name: "ap0", state: 0x80, link_address: &[1, 2, 3, 4, 5, 6] },
        NeighborEntry { interface_name: "ap0", state: 0x82, link_address: &[0, 0, 0, 0, 0, 0] },
        NeighborEntry { interface_name: "ap0", state: 0x03, link_address: &[1, 2, 3, 4, 5, 7] },
        NeighborEntry { interface_name: "ap0", state: 0x08, link_address: &[1, 2, 3, 4, 5] },
        NeighborEntry { interface_name: "ap0", state: 0x10, link_address: &[9, 2, 3, 4, 5, 6] },
    ];
    assert_eq!(estimate_count_from_neighbors(&entries), Some(2));
    assert_eq!(estimate_count_from_neighbors(&[]), None);
}

#[test]
fn tally_reports_none_until_hotspot_seen() {
    let mut tally = NeighborTally::new();
    assert_eq!(tally.count(), None);
    tally.add_neighbor_entry("wlan0", 0x02, &[1, 2, 3, 4, 5, 6]);
    assert_eq!(tally.count(), None);
    tally.add_neighbor_entry("wlan1", 0x20, &[1, 2, 3, 4, 5, 6]);
    assert_eq!(tally.count(), Some(0));
    tally.add_neighbor_entry("wlan1", 0x02, &[1, 2, 3, 4, 5, 6]);
    tally.add_neighbor_entry("wlan1", 0x04, &[1, 2, 3, 4, 5, 6]);
    assert_eq!(tally.count(), Some(1));
}
