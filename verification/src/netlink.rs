use vstd::prelude::*;

verus! {

// The layout of the rtnetlink messages that a neighbour dump exchanges, in the
// byte order of every Android ABI (little-endian).
//
//   nlmsghdr (16 bytes): len u32, kind u16, flags u16, seq u32, pid u32
//   ndmsg    (12 bytes): family u8, pad u8, pad u16, ifindex i32, state u16,
//                        flags u8, type u8
//   rtattr   (4 bytes):  len u16, kind u16, then the attribute's data

pub const NLMSG_HEADER_LEN: usize = 16;
pub const NEIGHBOR_MESSAGE_LEN: usize = 12;
pub const ROUTE_ATTR_LEN: usize = 4;
pub const NLMSG_ERROR: u16 = 2;
pub const NLMSG_DONE: u16 = 3;
pub const RTM_NEWNEIGH: u16 = 28;
pub const RTM_GETNEIGH: u16 = 30;
pub const NLM_F_REQUEST: u16 = 0x01;
pub const NLM_F_DUMP: u16 = 0x300;
pub const NDA_LLADDR: u16 = 2;

/// The little-endian `u16` at `i`.
pub open spec fn le_u16(b: Seq<u8>, i: int) -> nat {
    b[i] as nat + 256 * b[i + 1] as nat
}

/// The little-endian `u32` at `i`.
pub open spec fn le_u32(b: Seq<u8>, i: int) -> nat {
    b[i] as nat + 256 * b[i + 1] as nat + 65536 * b[i + 2] as nat + 16777216 * b[i + 3] as nat
}

/// The two little-endian bytes of `v`.
pub open spec fn le_bytes16(v: nat) -> Seq<u8> {
    seq![(v % 256) as u8, (v / 256 % 256) as u8]
}

/// The four little-endian bytes of `v`.
pub open spec fn le_bytes32(v: nat) -> Seq<u8> {
    seq![(v % 256) as u8, (v / 256 % 256) as u8, (v / 65536 % 256) as u8, (v / 16777216 % 256) as u8]
}

/// `v` rounded up to a multiple of 4, as netlink aligns messages and attributes.
pub open spec fn align4(v: nat) -> nat {
    ((v + 3) / 4 * 4) as nat
}

pub fn align_to_4(value: usize) -> (aligned: usize)
    requires
        value + 3 <= usize::MAX,
    ensures
        aligned == align4(value as nat),
{
    let v = value + 3;
    assert(v & !3usize == v / 4 * 4) by (bit_vector);
    v & !3usize
}

fn read_u16(b: &[u8], i: usize) -> (v: u16)
    requires
        i + 2 <= b@.len(),
    ensures
        v == le_u16(b@, i as int),
{
    b[i] as u16 + 256 * (b[i + 1] as u16)
}

fn read_u32(b: &[u8], i: usize) -> (v: u32)
    requires
        i + 4 <= b@.len(),
    ensures
        v == le_u32(b@, i as int),
{
    b[i] as u32 + 256 * (b[i + 1] as u32) + 65536 * (b[i + 2] as u32) + 16777216 * (b[i + 3] as u32)
}

/// The request that asks the kernel for a dump of its neighbour table:
/// a header of kind `RTM_GETNEIGH` with flags `NLM_F_REQUEST | NLM_F_DUMP`,
/// sequence number 1 and port 0, followed by an all-zero `ndmsg`
/// (family `AF_UNSPEC`).
pub open spec fn neighbor_dump_request_bytes() -> Seq<u8> {
    le_bytes32(28) + le_bytes16(RTM_GETNEIGH as nat) + le_bytes16((NLM_F_REQUEST | NLM_F_DUMP) as nat)
        + le_bytes32(1) + le_bytes32(0) + Seq::new(12, |i: int| 0u8)
}

pub fn neighbor_dump_request() -> (request: Vec<u8>)
    ensures
        request@ == neighbor_dump_request_bytes(),
{
    let mut request: Vec<u8> = Vec::new();
    let total = (NLMSG_HEADER_LEN + NEIGHBOR_MESSAGE_LEN) as u32;
    let flags = NLM_F_REQUEST | NLM_F_DUMP;
    assert(0x01u16 | 0x300u16 == 0x301u16) by (bit_vector);
    assert(flags == 0x301u16);
    push_u32(&mut request, total);
    push_u16(&mut request, RTM_GETNEIGH);
    push_u16(&mut request, flags);
    push_u32(&mut request, 1);
    push_u32(&mut request, 0);
    let mut i: usize = 0;
    while i < NEIGHBOR_MESSAGE_LEN
        invariant
            i <= 12,
            request@.len() == 16 + i,
            request@.subrange(0, 16) == le_bytes32(28) + le_bytes16(RTM_GETNEIGH as nat)
                + le_bytes16(0x301) + le_bytes32(1) + le_bytes32(0),
            forall|k: int| 16 <= k < 16 + i ==> request@[k] == 0u8,
        decreases 12 - i,
    {
        let ghost before = request@;
        request.push(0u8);
        assert(request@.subrange(0, 16) =~= before.subrange(0, 16));
        i = i + 1;
    }
    assert(request@ =~= neighbor_dump_request_bytes());
    request
}

fn push_u16(v: &mut Vec<u8>, x: u16)
    ensures
        final(v)@ == old(v)@ + le_bytes16(x as nat),
{
    v.push((x % 256) as u8);
    v.push((x / 256) as u8);
    assert(final(v)@ =~= old(v)@ + le_bytes16(x as nat));
}

fn push_u32(v: &mut Vec<u8>, x: u32)
    ensures
        final(v)@ == old(v)@ + le_bytes32(x as nat),
{
    v.push((x % 256) as u8);
    v.push((x / 256 % 256) as u8);
    v.push((x / 65536 % 256) as u8);
    v.push((x / 16777216) as u8);
    assert(final(v)@ =~= old(v)@ + le_bytes32(x as nat));
}

/// The data of the last `NDA_LLADDR` attribute among the attributes of an
/// `ndmsg` payload from `offset` on (`found` when there is none). The walk
/// stops at an attribute shorter than its header or longer than the payload.
pub open spec fn link_address_attr(payload: Seq<u8>, offset: int, found: Option<Seq<u8>>) -> Option<Seq<u8>>
    decreases payload.len() + 4 - offset,
{
    if offset < 0 || offset + 4 > payload.len() {
        found
    } else {
        let len = le_u16(payload, offset);
        let kind = le_u16(payload, offset + 2);
        if len < 4 || offset + len > payload.len() {
            found
        } else {
            let now = if kind == NDA_LLADDR as nat {
                Some(payload.subrange(offset + 4, offset + len))
            } else {
                found
            };
            link_address_attr(payload, offset + align4(len), now)
        }
    }
}

/// A neighbour that a `RTM_NEWNEIGH` message reports with a link address.
pub struct NeighborRecord {
    pub ifindex: i32,
    pub state: u16,
    pub link_address: Vec<u8>,
}

/// The plain values of a `NeighborRecord`.
pub struct NeighborRecordView {
    pub ifindex: i32,
    pub state: u16,
    pub link_address: Seq<u8>,
}

impl View for NeighborRecord {
    type V = NeighborRecordView;

    open spec fn view(&self) -> NeighborRecordView {
        NeighborRecordView { ifindex: self.ifindex, state: self.state, link_address: self.link_address@ }
    }
}

/// The neighbour that the payload of a `RTM_NEWNEIGH` message reports, when
/// the payload holds a whole `ndmsg` and carries a link address.
pub open spec fn decode_neighbor(payload: Seq<u8>) -> Option<NeighborRecordView> {
    if payload.len() < NEIGHBOR_MESSAGE_LEN {
        None
    } else {
        match link_address_attr(payload, align4(NEIGHBOR_MESSAGE_LEN as nat) as int, None) {
            Some(address) => Some(NeighborRecordView {
                ifindex: le_u32(payload, 4) as u32 as i32,
                state: le_u16(payload, 8) as u16,
                link_address: address,
            }),
            None => None,
        }
    }
}

/// How the messages of a received chunk end.
#[derive(Clone, Copy, Debug, PartialEq, Eq)]
pub enum ChunkEnd {
    /// `NLMSG_DONE`: the dump is complete.
    Done,
    /// `NLMSG_ERROR`: the kernel refused the request.
    Error,
    /// A header that is too short or runs past the end of the chunk.
    Malformed,
    /// The chunk ends without a terminating message: the dump goes on.
    MoreToCome,
}

/// The neighbours that the messages of `chunk` from `offset` on report, and
/// how those messages end.
pub open spec fn walk_messages(chunk: Seq<u8>, offset: int) -> (Seq<NeighborRecordView>, ChunkEnd)
    decreases chunk.len() + 16 - offset,
{
    if offset < 0 || offset + NLMSG_HEADER_LEN > chunk.len() {
        (Seq::empty(), ChunkEnd::MoreToCome)
    } else {
        let len = le_u32(chunk, offset);
        let kind = le_u16(chunk, offset + 4);
        if len < NLMSG_HEADER_LEN || offset + len > chunk.len() {
            (Seq::empty(), ChunkEnd::Malformed)
        } else if kind == NLMSG_DONE as nat {
            (Seq::empty(), ChunkEnd::Done)
        } else if kind == NLMSG_ERROR as nat {
            (Seq::empty(), ChunkEnd::Error)
        } else {
            let rest = walk_messages(chunk, offset + align4(len));
            if kind == RTM_NEWNEIGH as nat {
                match decode_neighbor(chunk.subrange(offset + NLMSG_HEADER_LEN, offset + len)) {
                    Some(neighbor) => (seq![neighbor] + rest.0, rest.1),
                    None => rest,
                }
            } else {
                rest
            }
        }
    }
}

/// What one received chunk of a neighbour dump holds.
pub struct NetlinkChunk {
    pub neighbors: Vec<NeighborRecord>,
    pub end: ChunkEnd,
}

/// The plain values of a sequence of records.
pub open spec fn record_views(records: Seq<NeighborRecord>) -> Seq<NeighborRecordView> {
    records.map_values(|r: NeighborRecord| r@)
}

fn copy_bytes(b: &[u8], from: usize, to: usize) -> (r: Vec<u8>)
    requires
        from <= to <= b@.len(),
    ensures
        r@ == b@.subrange(from as int, to as int),
{
    let mut r: Vec<u8> = Vec::new();
    let mut i = from;
    while i < to
        invariant
            from <= i <= to <= b@.len(),
            r@ == b@.subrange(from as int, i as int),
        decreases to - i,
    {
        r.push(b[i]);
        assert(r@ =~= b@.subrange(from as int, i + 1));
        i = i + 1;
    }
    r
}

/// Decodes the `ndmsg` payload `chunk[start..end]` of a `RTM_NEWNEIGH` message.
pub fn parse_neighbor(chunk: &[u8], start: usize, end: usize) -> (r: Option<NeighborRecord>)
    requires
        start <= end <= chunk@.len(),
        chunk@.len() <= isize::MAX,
    ensures
        r matches Some(n) ==> decode_neighbor(chunk@.subrange(start as int, end as int)) == Some(n@),
        r is None ==> decode_neighbor(chunk@.subrange(start as int, end as int)) is None,
{
    let ghost payload = chunk@.subrange(start as int, end as int);
    if end - start < NEIGHBOR_MESSAGE_LEN {
        return None;
    }
    let ifindex = #[verifier::truncate] (read_u32(chunk, start + 4) as i32);
    let state = read_u16(chunk, start + 8);
    assert(le_u32(payload, 4) == le_u32(chunk@, start + 4));
    assert(le_u16(payload, 8) == le_u16(chunk@, start + 8));
    let mut found: Option<(usize, usize)> = None;
    let mut offset: usize = align_to_4(NEIGHBOR_MESSAGE_LEN);
    let len = end - start;
    while offset + ROUTE_ATTR_LEN <= len
        invariant
            start <= end <= chunk@.len(),
            chunk@.len() <= isize::MAX,
            len == end - start,
            payload == chunk@.subrange(start as int, end as int),
            offset <= len + 4,
            found matches Some((a, b)) ==> a <= b <= len,
            link_address_attr(payload, align4(NEIGHBOR_MESSAGE_LEN as nat) as int, None)
                == link_address_attr(payload, offset as int, match found {
                    Some((a, b)) => Some(payload.subrange(a as int, b as int)),
                    None => None,
                }),
        ensures
            found matches Some((a, b)) ==> a <= b <= len,
            link_address_attr(payload, align4(NEIGHBOR_MESSAGE_LEN as nat) as int, None) == match found {
                Some((a, b)) => Some(payload.subrange(a as int, b as int)),
                None => None,
            },
        decreases len + 4 - offset,
    {
        let attr_len = read_u16(chunk, start + offset) as usize;
        let kind = read_u16(chunk, start + offset + 2);
        assert(le_u16(payload, offset as int) == le_u16(chunk@, start + offset));
        assert(le_u16(payload, offset + 2) == le_u16(chunk@, start + offset + 2));
        if attr_len < ROUTE_ATTR_LEN || offset + attr_len > len {
            break;
        }
        if kind == NDA_LLADDR {
            found = Some((offset + ROUTE_ATTR_LEN, offset + attr_len));
        }
        offset = offset + align_to_4(attr_len);
    }
    match found {
        Some((a, b)) => {
            let link_address = copy_bytes(chunk, start + a, start + b);
            assert(link_address@ =~= payload.subrange(a as int, b as int));
            Some(NeighborRecord { ifindex, state, link_address })
        },
        None => None,
    }
}

/// Reads the messages of one chunk that a neighbour dump received: the
/// neighbours that its `RTM_NEWNEIGH` messages report with a link address,
/// up to the message that ends the chunk.
pub fn parse_netlink_chunk(chunk: &[u8]) -> (parsed: NetlinkChunk)
    requires
        chunk@.len() <= isize::MAX,
    ensures
        (record_views(parsed.neighbors@), parsed.end) == walk_messages(chunk@, 0),
{
    let mut neighbors: Vec<NeighborRecord> = Vec::new();
    let mut offset: usize = 0;
    let n = chunk.len();
    loop
        invariant
            n == chunk@.len(),
            n <= isize::MAX,
            offset <= n,
            walk_messages(chunk@, 0) == (record_views(neighbors@) + walk_messages(chunk@, offset as int).0,
                walk_messages(chunk@, offset as int).1),
        decreases n + 16 - offset,
    {
        let ghost before = record_views(neighbors@);
        if n - offset < NLMSG_HEADER_LEN {
            assert(before + Seq::<NeighborRecordView>::empty() =~= before);
            return NetlinkChunk { neighbors, end: ChunkEnd::MoreToCome };
        }
        let len = read_u32(chunk, offset) as usize;
        let kind = read_u16(chunk, offset + 4);
        if len < NLMSG_HEADER_LEN || len > n - offset {
            assert(before + Seq::<NeighborRecordView>::empty() =~= before);
            return NetlinkChunk { neighbors, end: ChunkEnd::Malformed };
        }
        if kind == NLMSG_DONE {
            assert(before + Seq::<NeighborRecordView>::empty() =~= before);
            return NetlinkChunk { neighbors, end: ChunkEnd::Done };
        }
        if kind == NLMSG_ERROR {
            assert(before + Seq::<NeighborRecordView>::empty() =~= before);
            return NetlinkChunk { neighbors, end: ChunkEnd::Error };
        }
        let ghost rest = walk_messages(chunk@, offset + align4(len as nat));
        if kind == RTM_NEWNEIGH {
            if let Some(record) = parse_neighbor(chunk, offset + NLMSG_HEADER_LEN, offset + len) {
                neighbors.push(record);
                assert(record_views(neighbors@) =~= before.push(record@));
                assert(before + (seq![record@] + rest.0) =~= before.push(record@) + rest.0);
            }
        }
        offset = offset + align_to_4(len);
        if offset > n {
            assert(walk_messages(chunk@, offset as int) == (Seq::<NeighborRecordView>::empty(), ChunkEnd::MoreToCome));
            assert(record_views(neighbors@) + Seq::<NeighborRecordView>::empty() =~= record_views(neighbors@));
            return NetlinkChunk { neighbors, end: ChunkEnd::MoreToCome };
        }
    }
}

} // verus!
