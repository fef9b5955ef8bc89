use hotspot_hub::connected_devices::{
    estimate_count_from_neighbors, neighbor_dump_outcome, take_dump_chunk, NeighborEntry, NeighborTally,
};
use hotspot_hub::netlink::{align_to_4, neighbor_dump_request, parse_netlink_chunk, ChunkEnd};

fn header(len: u32, kind: u16) -> Vec<u8> {
    let mut v = Vec::new();
    v.extend_from_slice(&len.to_le_bytes());
    v.extend_from_slice(&kind.to_le_bytes());
    v.extend_from_slice(&0u16.to_le_bytes());
    v.extend_from_slice(&1u32.to_le_bytes());
    v.extend_from_slice(&0u32.to_le_bytes());
    v
}

fn neighbor_message(ifindex: i32, state: u16, attrs: &[(u16, &[u8])]) -> Vec<u8> {
    let mut payload = vec![0u8, 0, 0, 0];
    payload.extend_from_slice(&ifindex.to_le_bytes());
    payload.extend_from_slice(&state.to_le_bytes());
    payload.extend_from_slice(&[0, 0]);
    for (kind, data) in attrs {
        let len = 4 + data.len() as u16;
        payload.extend_from_slice(&len.to_le_bytes());
        payload.extend_from_slice(&kind.to_le_bytes());
        payload.extend_from_slice(data);
        while payload.len() % 4 != 0 {
            payload.push(0);
        }
    }
    let mut message = header(16 + payload.len() as u32, 28);
    message.extend_from_slice(&payload);
    message
}

#[test]
fn request_asks_for_a_neighbor_dump() {
    assert_eq!(
        neighbor_dump_request(),
        vec![28, 0, 0, 0, 30, 0, 1, 3, 1, 0, 0, 0, 0, 0, 0, 0, 0, 0, 0, 0, 0, 0, 0, 0, 0, 0, 0, 0]
    );
}

#[test]
fn aligns_to_four() {
    assert_eq!(align_to_4(0), 0);
    assert_eq!(align_to_4(1), 4);
    assert_eq!(align_to_4(4), 4);
    assert_eq!(align_to_4(13), 16);
}

#[test]
fn reads_neighbors_until_done() {
    let mut chunk = neighbor_message(7, 0x02, &[(1, &[10, 0, 0, 2]), (2, &[1, 2, 3, 4, 5, 6])]);
    chunk.extend(neighbor_message(8, 0x04, &[(1, &[10, 0, 0, 3])]));
    chunk.extend(neighbor_message(-1, 0x80, &[(2, &[9, 9]), (2, &[1, 2, 3, 4, 5, 7])]));
    chunk.extend(header(16, 3));
    chunk.extend(neighbor_message(9, 0x02, &[(2, &[1, 1, 1, 1, 1, 1])]));
    let parsed = parse_netlink_chunk(&chunk);
    assert_eq!(parsed.end, ChunkEnd::Done);
    assert_eq!(parsed.neighbors.len(), 2);
    assert_eq!(parsed.neighbors[0].ifindex, 7);
    assert_eq!(parsed.neighbors[0].state, 0x02);
    assert_eq!(parsed.neighbors[0].link_address, vec![1, 2, 3, 4, 5, 6]);
    assert_eq!(parsed.neighbors[1].ifindex, -1);
    assert_eq!(parsed.neighbors[1].link_address, vec![1, 2, 3, 4, 5, 7]);
}

#[test]
fn reports_error_malformed_and_more_to_come() {
    assert_eq!(parse_netlink_chunk(&header(16, 2)).end, ChunkEnd::Error);
    assert_eq!(parse_netlink_chunk(&header(12, 28)).end, ChunkEnd::Malformed);
    assert_eq!(parse_netlink_chunk(&header(40, 28)).end, ChunkEnd::Malformed);
    let mut chunk = neighbor_message(3, 0x02, &[(2, &[1, 2, 3, 4, 5, 6])]);
    chunk.extend_from_slice(&[0, 0, 0]);
    let parsed = parse_netlink_chunk(&chunk);
    assert_eq!(parsed.end, ChunkEnd::MoreToCome);
    assert_eq!(parsed.neighbors.len(), 1);
    assert_eq!(parse_netlink_chunk(&[]).end, ChunkEnd::MoreToCome);
}

#[test]
fn stops_attributes_at_a_bad_length() {
    let mut payload = vec![0u8; 12];
    payload.extend_from_slice(&8u16.to_le_bytes());
    payload.extend_from_slice(&2u16.to_le_bytes());
    payload.extend_from_slice(&[5, 5, 5, 5]);
    payload.extend_from_slice(&2u16.to_le_bytes());
    payload.extend_from_slice(&2u16.to_le_bytes());
    payload.extend_from_slice(&[1, 1, 1, 1, 1, 1, 1, 1]);
    let mut chunk = header(16 + payload.len() as u32, 28);
    chunk.extend(payload);
    let parsed = parse_netlink_chunk(&chunk);
    assert_eq!(parsed.neighbors.len(), 1);
    assert_eq!(parsed.neighbors[0].link_address, vec![5, 5, 5, 5]);
}

#[test]
fn dump_ends_with_the_tally_or_nothing() {
    let mut tally = NeighborTally::new();
    tally.add_neighbor_entry("wlan1", 0x02, &[1, 2, 3, 4, 5, 6]);
    assert_eq!(neighbor_dump_outcome(&tally, ChunkEnd::Done), Some(Some(1)));
    assert_eq!(neighbor_dump_outcome(&tally, ChunkEnd::Error), Some(None));
    assert_eq!(neighbor_dump_outcome(&tally, ChunkEnd::Malformed), Some(None));
    assert_eq!(neighbor_dump_outcome(&tally, ChunkEnd::MoreToCome), None);
    assert_eq!(neighbor_dump_outcome(&NeighborTally::new(), ChunkEnd::Done), Some(None));
}

#[test]
fn a_dump_in_two_chunks_counts_all_its_named_entries() {
    let mut first = neighbor_message(7, 0x02, &[(2, &[1, 2, 3, 4, 5, 6])]);
    first.extend(neighbor_message(9, 0x02, &[(2, &[1, 2, 3, 4, 5, 9])]));
    let mut second = neighbor_message(7, 0x08, &[(2, &[1, 2, 3, 4, 5, 7])]);
    second.extend(neighbor_message(7, 0x02, &[(2, &[1, 2, 3, 4, 5, 6])]));
    second.extend(header(16, 3));
    let name = |ifindex: i32| match ifindex {
        7 => Some(String::from("ap0")),
        _ => None,
    };
    let mut tally = NeighborTally::new();
    let chunk = parse_netlink_chunk(&first);
    assert_eq!(chunk.end, ChunkEnd::MoreToCome);
    let names: Vec<Option<String>> = chunk.neighbors.iter().map(|n| name(n.ifindex)).collect();
    assert_eq!(take_dump_chunk(&mut tally, &chunk, &names), None);
    let chunk = parse_netlink_chunk(&second);
    let names: Vec<Option<String>> = chunk.neighbors.iter().map(|n| name(n.ifindex)).collect();
    let outcome = take_dump_chunk(&mut tally, &chunk, &names);
    // The neighbour on interface 9 has no name and is left out.
    assert_eq!(outcome, Some(Some(2)));
    let entries = [
        NeighborEntry { interface_name: "ap0", state: 0x02, link_address: &[1, 2, 3, 4, 5, 6] },
        NeighborEntry { interface_name: "ap0", state: 0x08, link_address: &[1, 2, 3, 4, 5, 7] },
        NeighborEntry { interface_name: "ap0", state: 0x02, link_address: &[1, 2, 3, 4, 5, 6] },
    ];
    assert_eq!(outcome, Some(estimate_count_from_neighbors(&entries)));
}

#[test]
fn a_dump_that_fails_counts_nothing() {
    let mut chunk = neighbor_message(7, 0x02, &[(2, &[1, 2, 3, 4, 5, 6])]);
    chunk.extend(header(36, 2));
    chunk.extend([0u8; 20]);
    let parsed = parse_netlink_chunk(&chunk);
    assert_eq!(parsed.end, ChunkEnd::Error);
    let mut tally = NeighborTally::new();
    let names = vec![Some(String::from("ap0"))];
    assert_eq!(take_dump_chunk(&mut tally, &parsed, &names), Some(None));
    assert_eq!(tally.count(), Some(1));
}
