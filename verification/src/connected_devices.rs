use vstd::prelude::*;
use crate::netlink::{record_views, walk_messages, ChunkEnd, NeighborRecordView, NetlinkChunk};
use crate::text::{
    lemma_split_on_nonempty,
    find_from, lemma_find_from_found, find_chars, trim, trim_from, words, words_of, digit_of, digits_value,
    all_digits,
    chars_eq, chars_of, lowercase, lowercase_chars, parse_unsigned, parse_unsigned_from, split_chars,
    split_on, starts_with, starts_with_chars, views, push_chars,
};
use vstd::string::StringExecFns;

verus! {

// ---------------------------------------------------------------------------
// Distinct clients
// ---------------------------------------------------------------------------

/// The views of a sequence of byte vectors.
pub open spec fn byte_views(v: Seq<Vec<u8>>) -> Seq<Seq<u8>> {
    v.map_values(|p: Vec<u8>| p@)
}

/// What a count estimate reports: nothing when no hotspot interface was seen,
/// else the number of distinct clients (as `usize as u32` gives it).
pub open spec fn count_estimate<A>(saw_hotspot_interface: bool, clients: Set<A>) -> Option<u32> {
    if saw_hotspot_interface {
        Some(#[verifier::truncate] (clients.len() as u32))
    } else {
        None
    }
}

proof fn lemma_insert_distinct<A>(s: Seq<A>, x: A)
    requires
        s.no_duplicates(),
    ensures
        !s.contains(x) ==> s.push(x).no_duplicates(),
        !s.contains(x) ==> s.push(x).to_set() == s.to_set().insert(x),
        s.contains(x) ==> s.to_set().insert(x) == s.to_set(),
{
    s.lemma_push_to_set_commute(x);
    if s.contains(x) {
        assert(s.to_set().insert(x) =~= s.to_set());
    } else {
        assert forall|i: int, j: int| 0 <= i < s.push(x).len() && 0 <= j < s.push(x).len() && i != j
            implies s.push(x)[i] != s.push(x)[j] by {
            if i < s.len() && j < s.len() {
            } else if i == s.len() {
                assert(s.contains(s[j]));
            } else {
                assert(s.contains(s[i]));
            }
        }
    }
}

/// Adds `x` to the distinct character sequences `set` unless it is there already.
fn insert_distinct_chars(set: &mut Vec<Vec<char>>, x: Vec<char>)
    requires
        views(old(set)@).no_duplicates(),
    ensures
        views(final(set)@).no_duplicates(),
        views(final(set)@).to_set() == views(old(set)@).to_set().insert(x@),
{
    let mut i: usize = 0;
    while i < set.len()
        invariant
            i <= set@.len(),
            set@ == old(set)@,
            views(set@).no_duplicates(),
            forall|k: int| 0 <= k < i ==> set@[k]@ != x@,
        decreases set@.len() - i,
    {
        if chars_eq(&set[i], &x) {
            proof {
                assert(views(set@)[i as int] == x@);
                lemma_insert_distinct(views(set@), x@);
            }
            return;
        }
        i = i + 1;
    }
    proof {
        assert(!views(set@).contains(x@));
        lemma_insert_distinct(views(set@), x@);
    }
    let ghost before = views(set@);
    set.push(x);
    assert(views(set@) =~= before.push(x@));
}

fn bytes_eq(a: &[u8], b: &Vec<u8>) -> (r: bool)
    ensures
        r == (a@ == b@),
{
    if a.len() != b.len() {
        return false;
    }
    let mut i: usize = 0;
    while i < a.len()
        invariant
            a@.len() == b@.len(),
            i <= a@.len(),
            forall|j: int| 0 <= j < i ==> a@[j] == b@[j],
        decreases a@.len() - i,
    {
        if a[i] != b[i] {
            return false;
        }
        i = i + 1;
    }
    assert(a@ =~= b@);
    true
}

fn bytes_to_vec(a: &[u8]) -> (r: Vec<u8>)
    ensures
        r@ == a@,
{
    let mut r: Vec<u8> = Vec::new();
    let mut i: usize = 0;
    while i < a.len()
        invariant
            i <= a@.len(),
            r@ == a@.take(i as int),
        decreases a@.len() - i,
    {
        r.push(a[i]);
        assert(r@ =~= a@.take(i + 1));
        i = i + 1;
    }
    assert(a@.take(a@.len() as int) =~= a@);
    r
}

// ---------------------------------------------------------------------------
// Interfaces, addresses and states
// ---------------------------------------------------------------------------

/// Whether `device` names the hotspot's interface: in ASCII lower case it
/// starts with `ap`, `softap` or `swlan`, is `wlan1`, or starts with `wlan1_`.
pub open spec fn hotspot_interface(device: Seq<char>) -> bool {
    let d = lowercase(device);
    ||| starts_with(d, "ap"@)
    ||| starts_with(d, "softap"@)
    ||| starts_with(d, "swlan"@)
    ||| d == "wlan1"@
    ||| starts_with(d, "wlan1_"@)
}

pub fn is_hotspot_interface(device: &Vec<char>) -> (r: bool)
    ensures
        r == hotspot_interface(device@),
{
    let d = lowercase_chars(device);
    starts_with_chars(&d, &chars_of("ap")) || starts_with_chars(&d, &chars_of("softap"))
        || starts_with_chars(&d, &chars_of("swlan")) || chars_eq(&d, &chars_of("wlan1"))
        || starts_with_chars(&d, &chars_of("wlan1_"))
}

/// A name made of a lower-case ASCII prefix and anything after it starts,
/// once lowered, with that prefix.
proof fn lemma_lowered_prefix(prefix: Seq<char>, rest: Seq<char>)
    requires
        forall|k: int| 0 <= k < prefix.len() ==> 'a' <= #[trigger] prefix[k] <= 'z' || '0' <= prefix[k] <= '9' || prefix[k] == '_',
    ensures
        starts_with(lowercase(prefix + rest), prefix),
{
    assert(lowercase(prefix + rest).subrange(0, prefix.len() as int) =~= prefix);
}

/// Lowering a name that is already lowered changes nothing.
proof fn lemma_lowercase_idempotent(device: Seq<char>)
    ensures
        lowercase(lowercase(device)) == lowercase(device),
{
    assert forall|k: int| 0 <= k < device.len() implies #[trigger] lowercase(lowercase(device))[k] == lowercase(device)[k] by {
        let c = device[k];
        if 'A' <= c && c <= 'Z' {
            assert('a' <= ((c as u32) + 32) as char <= 'z');
        }
    }
    assert(lowercase(lowercase(device)) =~= lowercase(device));
}

/// The hotspot interface's names: whatever follows, a name that starts with
/// `ap`, `softap`, `swlan` (Samsung's hotspot) or `wlan1_`, or is `wlan1`,
/// names it, in any case of its ASCII letters; the station interface
/// `wlan0`, `wlan10`, `eth0` and `rmnet0` do not.
pub proof fn lemma_hotspot_interface_names(device: Seq<char>, rest: Seq<char>)
    ensures
        hotspot_interface("ap"@ + rest),
        hotspot_interface("softap"@ + rest),
        hotspot_interface("swlan"@ + rest),
        hotspot_interface("wlan1_"@ + rest),
        hotspot_interface("wlan1"@),
        hotspot_interface(device) == hotspot_interface(lowercase(device)),
        !hotspot_interface("wlan0"@),
        !hotspot_interface("wlan10"@),
        !hotspot_interface("eth0"@),
        !hotspot_interface("rmnet0"@),
{
    reveal_strlit("ap");
    reveal_strlit("softap");
    reveal_strlit("swlan");
    reveal_strlit("wlan1");
    reveal_strlit("wlan1_");
    reveal_strlit("wlan0");
    reveal_strlit("wlan10");
    reveal_strlit("eth0");
    reveal_strlit("rmnet0");
    lemma_lowered_prefix("ap"@, rest);
    lemma_lowered_prefix("softap"@, rest);
    lemma_lowered_prefix("swlan"@, rest);
    lemma_lowered_prefix("wlan1_"@, rest);
    lemma_lowercase_idempotent(device);
    assert(lowercase("wlan1"@) =~= "wlan1"@);
    assert(lowercase("wlan0"@) =~= "wlan0"@);
    assert(lowercase("wlan10"@) =~= "wlan10"@);
    assert(lowercase("eth0"@) =~= "eth0"@);
    assert(lowercase("rmnet0"@) =~= "rmnet0"@);
    assert(lowercase("wlan10"@).subrange(0, 6) != "wlan1_"@) by {
        assert(lowercase("wlan10"@).subrange(0, 6)[5] != "wlan1_"@[5]);
    }
    assert(lowercase("wlan0"@).subrange(0, 2) != "ap"@) by {
        assert(lowercase("wlan0"@)[0] != "ap"@[0]);
    }
    assert(lowercase("wlan10"@).subrange(0, 2) != "ap"@) by {
        assert(lowercase("wlan10"@)[0] != "ap"@[0]);
    }
    assert(lowercase("eth0"@).subrange(0, 2) != "ap"@) by {
        assert(lowercase("eth0"@)[0] != "ap"@[0]);
    }
    assert(lowercase("rmnet0"@).subrange(0, 2) != "ap"@) by {
        assert(lowercase("rmnet0"@)[0] != "ap"@[0]);
    }
    assert(lowercase("rmnet0"@).subrange(0, 6) != "softap"@) by {
        assert(lowercase("rmnet0"@)[0] != "softap"@[0]);
    }
    assert(lowercase("rmnet0"@).subrange(0, 5) != "swlan"@) by {
        assert(lowercase("rmnet0"@)[0] != "swlan"@[0]);
    }
    assert(lowercase("wlan10"@).subrange(0, 5) != "swlan"@) by {
        assert(lowercase("wlan10"@)[0] != "swlan"@[0]);
    }
    assert(lowercase("wlan10"@) != "wlan1"@);
    assert(lowercase("wlan0"@).subrange(0, 5) != "swlan"@) by {
        assert(lowercase("wlan0"@)[0] != "swlan"@[0]);
    }
    assert(lowercase("wlan0"@) != "wlan1"@) by {
        assert(lowercase("wlan0"@)[4] != "wlan1"@[4]);
    }
    assert(lowercase("wlan10"@).subrange(0, 6) != "softap"@) by {
        assert(lowercase("wlan10"@)[0] != "softap"@[0]);
    }
    assert(lowercase("rmnet0"@).subrange(0, 6) != "wlan1_"@) by {
        assert(lowercase("rmnet0"@)[0] != "wlan1_"@[0]);
    }
}

/// Whether a (lower-case) hardware address names a client: it is neither all
/// zeros nor the marker of an incomplete entry.
pub open spec fn usable_mac(mac: Seq<char>) -> bool {
    mac != "00:00:00:00:00:00"@ && mac != "<incomplete>"@
}

pub fn is_usable_mac(mac: &Vec<char>) -> (r: bool)
    ensures
        r == usable_mac(mac@),
{
    !chars_eq(mac, &chars_of("00:00:00:00:00:00")) && !chars_eq(mac, &chars_of("<incomplete>"))
}

/// The number in an ARP flags column: hexadecimal after `0x`, else decimal, else 0.
pub open spec fn arp_flags_value(flags: Seq<char>) -> nat {
    let hex = parse_unsigned(flags.skip("0x"@.len() as int), 16, u32::MAX as nat);
    let dec = parse_unsigned(flags, 10, u32::MAX as nat);
    if starts_with(flags, "0x"@) && hex is Some {
        hex->0
    } else if dec is Some {
        dec->0
    } else {
        0
    }
}

/// Whether an ARP entry is complete: its flags have the `ATF_COM` bit (0x2).
pub open spec fn complete_arp_flags(flags: Seq<char>) -> bool {
    (arp_flags_value(flags) as u32) & 2u32 != 0
}

pub fn is_complete_arp_entry(flags: &Vec<char>) -> (r: bool)
    ensures
        r == complete_arp_flags(flags@),
{
    let prefix = chars_of("0x");
    let mut value: u64 = 0;
    let mut found = false;
    if starts_with_chars(flags, &prefix) {
        if let Some(v) = parse_unsigned_from(flags, prefix.len(), 16, 0xffff_ffff) {
            value = v;
            found = true;
        }
    }
    if !found {
        assert(flags@.skip(0) =~= flags@);
        if let Some(v) = parse_unsigned_from(flags, 0, 10, 0xffff_ffff) {
            value = v;
        }
    }
    assert(value == arp_flags_value(flags@));
    (value as u32) & 2u32 != 0
}

/// Whether every byte of a link address is zero.
pub open spec fn zero_link_address(link_address: Seq<u8>) -> bool {
    forall|i: int| 0 <= i < link_address.len() ==> link_address[i] == 0
}

pub fn is_zero_link_address(link_address: &[u8]) -> (r: bool)
    ensures
        r == zero_link_address(link_address@),
{
    let mut i: usize = 0;
    while i < link_address.len()
        invariant
            i <= link_address@.len(),
            forall|j: int| 0 <= j < i ==> link_address@[j] == 0,
        decreases link_address@.len() - i,
    {
        if link_address[i] != 0 {
            return false;
        }
        i = i + 1;
    }
    true
}

/// Whether a neighbour state (a set of `NUD_*` bits) is an active one: neither
/// `INCOMPLETE` (0x01) nor `FAILED` (0x20), and one of `REACHABLE`, `STALE`,
/// `DELAY`, `PROBE` or `PERMANENT` (0x02, 0x04, 0x08, 0x10, 0x80).
pub open spec fn active_neighbor_state(state: u16) -> bool {
    state & 0x21u16 == 0 && state & 0x9eu16 != 0
}

pub fn is_active_neighbor_state(state: u16) -> (r: bool)
    ensures
        r == active_neighbor_state(state),
{
    state & 0x21u16 == 0 && state & 0x9eu16 != 0
}

/// Whether a state column of `ip neigh` names an active state.
pub open spec fn active_neighbor_state_name(state: Seq<char>) -> bool {
    ||| state == "REACHABLE"@
    ||| state == "STALE"@
    ||| state == "DELAY"@
    ||| state == "PROBE"@
    ||| state == "PERMANENT"@
}

pub fn is_active_neighbor_state_name(state: &Vec<char>) -> (r: bool)
    ensures
        r == active_neighbor_state_name(state@),
{
    chars_eq(state, &chars_of("REACHABLE")) || chars_eq(state, &chars_of("STALE"))
        || chars_eq(state, &chars_of("DELAY")) || chars_eq(state, &chars_of("PROBE"))
        || chars_eq(state, &chars_of("PERMANENT"))
}

/// The null link address is the one whose bytes are all zero: an address
/// with a non-zero byte anywhere (a vendor prefix may well start with `00`) is
/// not null, and one whose bytes are all zero is.
pub proof fn lemma_zero_link_address(link_address: Seq<u8>, i: int)
    ensures
        0 <= i < link_address.len() && link_address[i] != 0 ==> !zero_link_address(link_address),
        zero_link_address(link_address) ==> (0 <= i < link_address.len() ==> link_address[i] == 0),
        zero_link_address(Seq::new(link_address.len(), |k: int| 0u8)),
{
}

/// The kernel's active neighbour states: each of `REACHABLE` (0x02), `STALE`
/// (0x04), `DELAY` (0x08), `PROBE` (0x10) and `PERMANENT` (0x80) is active,
/// alone or with other active bits or `NOARP` (0x40); no state with the
/// `INCOMPLETE` (0x01) or `FAILED` (0x20) bit is, nor `NOARP` or `NONE` (0)
/// alone.
pub proof fn lemma_active_neighbor_states(state: u16)
    ensures
        active_neighbor_state(0x02),
        active_neighbor_state(0x04),
        active_neighbor_state(0x08),
        active_neighbor_state(0x10),
        active_neighbor_state(0x80),
        state & 0x21u16 == 0 && (state & 0x02u16 != 0 || state & 0x04u16 != 0 || state & 0x08u16 != 0
            || state & 0x10u16 != 0 || state & 0x80u16 != 0) ==> active_neighbor_state(state),
        state & 0x01u16 != 0 ==> !active_neighbor_state(state),
        state & 0x20u16 != 0 ==> !active_neighbor_state(state),
        !active_neighbor_state(0x00),
        !active_neighbor_state(0x40),
{
    assert(0x02u16 & 0x21u16 == 0 && 0x02u16 & 0x9eu16 != 0) by (bit_vector);
    assert(0x04u16 & 0x21u16 == 0 && 0x04u16 & 0x9eu16 != 0) by (bit_vector);
    assert(0x08u16 & 0x21u16 == 0 && 0x08u16 & 0x9eu16 != 0) by (bit_vector);
    assert(0x10u16 & 0x21u16 == 0 && 0x10u16 & 0x9eu16 != 0) by (bit_vector);
    assert(0x80u16 & 0x21u16 == 0 && 0x80u16 & 0x9eu16 != 0) by (bit_vector);
    assert(0x00u16 & 0x9eu16 == 0) by (bit_vector);
    assert(0x40u16 & 0x9eu16 == 0) by (bit_vector);
    assert((state & 0x02u16 != 0 || state & 0x04u16 != 0 || state & 0x08u16 != 0 || state & 0x10u16 != 0
        || state & 0x80u16 != 0) ==> state & 0x9eu16 != 0) by (bit_vector);
    assert(state & 0x01u16 != 0 ==> state & 0x21u16 != 0) by (bit_vector);
    assert(state & 0x20u16 != 0 ==> state & 0x21u16 != 0) by (bit_vector);
}

/// A neighbour entry on the hotspot interface, in an active state, with a
/// six-byte link address that has a non-zero byte, is a client: that address;
/// a single such entry counts one client.
pub proof fn lemma_neighbor_entry_is_client(entry: NeighborEntryView, i: int)
    requires
        hotspot_interface(entry.interface_name),
        active_neighbor_state(entry.state),
        entry.link_address.len() == 6,
        0 <= i < 6,
        entry.link_address[i] != 0,
    ensures
        entry_client(entry) == Some(entry.link_address),
        neighbor_clients(seq![entry]) == set![entry.link_address],
        count_estimate(neighbors_on_hotspot(seq![entry]), neighbor_clients(seq![entry])) == Some(1u32),
{
    let one = seq![entry];
    assert(!zero_link_address(entry.link_address));
    assert(one.drop_last() =~= Seq::<NeighborEntryView>::empty());
    assert(neighbor_clients(one.drop_last()) == Set::<Seq<u8>>::empty());
    assert(one[0] == entry);
    assert(one.last() == entry);
    assert(neighbor_clients(one) =~= set![entry.link_address]);
    assert(set![entry.link_address].len() == 1) by {
        assert(set![entry.link_address] =~= Set::<Seq<u8>>::empty().insert(entry.link_address));
    }
}

/// The active state names of `ip neigh` are `REACHABLE`, `STALE`, `DELAY`,
/// `PROBE` and `PERMANENT`, written in capitals; `FAILED`, `INCOMPLETE`,
/// `NOARP` and `NONE` are not. An IPv4 line on the hotspot interface with a
/// usable `lladdr` and any column naming an active state shows its lower-case
/// address as a client.
pub proof fn lemma_active_state_names(columns: Seq<Seq<char>>, j: int, mac: Seq<char>)
    ensures
        active_neighbor_state_name("REACHABLE"@),
        active_neighbor_state_name("STALE"@),
        active_neighbor_state_name("DELAY"@),
        active_neighbor_state_name("PROBE"@),
        active_neighbor_state_name("PERMANENT"@),
        !active_neighbor_state_name("FAILED"@),
        !active_neighbor_state_name("INCOMPLETE"@),
        !active_neighbor_state_name("NOARP"@),
        !active_neighbor_state_name("NONE"@),
        !active_neighbor_state_name("reachable"@),
        ip_row_on_hotspot(columns) && ipv4_address(columns[0]) && value_after(columns, "lladdr"@) == Some(mac)
            && usable_mac(lowercase(mac)) && 0 <= j < columns.len() && (columns[j] == "REACHABLE"@
            || columns[j] == "STALE"@ || columns[j] == "DELAY"@ || columns[j] == "PROBE"@
            || columns[j] == "PERMANENT"@) ==> ip_row_client(columns) == Some(lowercase(mac)),
{
    reveal_strlit("REACHABLE");
    reveal_strlit("STALE");
    reveal_strlit("DELAY");
    reveal_strlit("PROBE");
    reveal_strlit("PERMANENT");
    reveal_strlit("FAILED");
    reveal_strlit("INCOMPLETE");
    reveal_strlit("NOARP");
    reveal_strlit("NONE");
    reveal_strlit("reachable");
    assert("FAILED"@ != "REACHABLE"@) by {
        assert("FAILED"@[0] != "REACHABLE"@[0]);
    }
    assert("FAILED"@ != "STALE"@) by {
        assert("FAILED"@[0] != "STALE"@[0]);
    }
    assert("FAILED"@ != "DELAY"@) by {
        assert("FAILED"@[0] != "DELAY"@[0]);
    }
    assert("FAILED"@ != "PROBE"@) by {
        assert("FAILED"@[0] != "PROBE"@[0]);
    }
    assert("FAILED"@ != "PERMANENT"@) by {
        assert("FAILED"@[0] != "PERMANENT"@[0]);
    }
    assert("INCOMPLETE"@ != "REACHABLE"@) by {
        assert("INCOMPLETE"@[0] != "REACHABLE"@[0]);
    }
    assert("INCOMPLETE"@ != "STALE"@) by {
        assert("INCOMPLETE"@[0] != "STALE"@[0]);
    }
    assert("INCOMPLETE"@ != "DELAY"@) by {
        assert("INCOMPLETE"@[0] != "DELAY"@[0]);
    }
    assert("INCOMPLETE"@ != "PROBE"@) by {
        assert("INCOMPLETE"@[0] != "PROBE"@[0]);
    }
    assert("INCOMPLETE"@ != "PERMANENT"@) by {
        assert("INCOMPLETE"@[0] != "PERMANENT"@[0]);
    }
    assert("NOARP"@ != "REACHABLE"@) by {
        assert("NOARP"@[0] != "REACHABLE"@[0]);
    }
    assert("NOARP"@ != "STALE"@) by {
        assert("NOARP"@[0] != "STALE"@[0]);
    }
    assert("NOARP"@ != "DELAY"@) by {
        assert("NOARP"@[0] != "DELAY"@[0]);
    }
    assert("NOARP"@ != "PROBE"@) by {
        assert("NOARP"@[0] != "PROBE"@[0]);
    }
    assert("NOARP"@ != "PERMANENT"@) by {
        assert("NOARP"@[0] != "PERMANENT"@[0]);
    }
    assert("NONE"@ != "REACHABLE"@) by {
        assert("NONE"@[0] != "REACHABLE"@[0]);
    }
    assert("NONE"@ != "STALE"@) by {
        assert("NONE"@[0] != "STALE"@[0]);
    }
    assert("NONE"@ != "DELAY"@) by {
        assert("NONE"@[0] != "DELAY"@[0]);
    }
    assert("NONE"@ != "PROBE"@) by {
        assert("NONE"@[0] != "PROBE"@[0]);
    }
    assert("NONE"@ != "PERMANENT"@) by {
        assert("NONE"@[0] != "PERMANENT"@[0]);
    }
    assert("reachable"@ != "REACHABLE"@) by {
        assert("reachable"@[0] != "REACHABLE"@[0]);
    }
    assert("reachable"@ != "STALE"@) by {
        assert("reachable"@[0] != "STALE"@[0]);
    }
    assert("reachable"@ != "DELAY"@) by {
        assert("reachable"@[0] != "DELAY"@[0]);
    }
    assert("reachable"@ != "PROBE"@) by {
        assert("reachable"@[0] != "PROBE"@[0]);
    }
    assert("reachable"@ != "PERMANENT"@) by {
        assert("reachable"@[0] != "PERMANENT"@[0]);
    }
    if 0 <= j < columns.len() && (columns[j] == "REACHABLE"@ || columns[j] == "STALE"@ || columns[j] == "DELAY"@
        || columns[j] == "PROBE"@ || columns[j] == "PERMANENT"@) {
        assert(active_neighbor_state_name(columns[j]));
        assert(has_active_state(columns));
    }
}

/// Whether `address` is a dotted IPv4 address: four parts between dots, each a
/// `u8` as `str::parse` reads one.
pub open spec fn ipv4_address(address: Seq<char>) -> bool {
    let parts = split_on(address, '.');
    parts.len() == 4 && forall|i: int| 0 <= i < 4 ==> parse_unsigned(#[trigger] parts[i], 10, 255) is Some
}

pub fn is_ipv4_address(address: &Vec<char>) -> (r: bool)
    ensures
        r == ipv4_address(address@),
{
    let parts = split_chars(address, '.');
    if parts.len() != 4 {
        return false;
    }
    let mut i: usize = 0;
    while i < 4
        invariant
            parts@.len() == 4,
            views(parts@) == split_on(address@, '.'),
            i <= 4,
            forall|k: int| 0 <= k < i ==> parse_unsigned(#[trigger] split_on(address@, '.')[k], 10, 255) is Some,
        decreases 4 - i,
    {
        assert(parts@[i as int]@.skip(0) =~= parts@[i as int]@);
        assert(views(parts@)[i as int] == parts@[i as int]@);
        if parse_unsigned_from(&parts[i], 0, 10, 255).is_none() {
            return false;
        }
        i = i + 1;
    }
    true
}

/// The column after the first column equal to `key`, when there is one.
pub open spec fn value_after(columns: Seq<Seq<char>>, key: Seq<char>) -> Option<Seq<char>>
    decreases columns.len(),
{
    if columns.len() < 2 {
        None
    } else if columns[0] == key {
        Some(columns[1])
    } else {
        value_after(columns.drop_first(), key)
    }
}

/// The index of the column that `value_after` returns.
fn value_after_index(columns: &Vec<Vec<char>>, key: &Vec<char>) -> (r: Option<usize>)
    ensures
        r matches Some(i) ==> i + 1 < columns@.len() && value_after(views(columns@), key@) == Some(columns@[i + 1]@),
        r is None ==> value_after(views(columns@), key@) is None,
{
    if columns.len() < 2 {
        return None;
    }
    let n = columns.len();
    let mut i: usize = 0;
    assert(views(columns@).skip(0) =~= views(columns@));
    while i + 1 < n
        invariant
            n == columns@.len(),
            i < n,
            value_after(views(columns@), key@) == value_after(views(columns@).skip(i as int), key@),
        decreases columns@.len() - i,
    {
        let ghost rest = views(columns@).skip(i as int);
        assert(rest[0] == columns@[i as int]@);
        assert(rest[1] == columns@[i + 1]@);
        if chars_eq(&columns[i], key) {
            return Some(i);
        }
        assert(rest.drop_first() =~= views(columns@).skip(i + 1));
        i = i + 1;
    }
    None
}

// ---------------------------------------------------------------------------
// Tables of text
// ---------------------------------------------------------------------------

/// The whitespace-separated columns of each line of `text`.
pub open spec fn line_columns(text: Seq<char>) -> Seq<Seq<Seq<char>>> {
    split_on(text, '\n').map_values(|line: Seq<char>| words(line))
}

/// Splits `text` into lines, as `line_columns` does.
fn lines_of(text: &str) -> (lines: Vec<Vec<char>>)
    ensures
        views(lines@) == split_on(text@, '\n'),
{
    let chars = chars_of(text);
    split_chars(&chars, '\n')
}

/// Whether some row satisfies `on_hotspot`.
pub open spec fn any_row<A>(rows: Seq<A>, on_hotspot: spec_fn(A) -> bool) -> bool {
    exists|i: int| 0 <= i < rows.len() && on_hotspot(#[trigger] rows[i])
}

proof fn lemma_any_row_take<A>(rows: Seq<A>, on_hotspot: spec_fn(A) -> bool, i: int)
    requires
        0 <= i < rows.len(),
    ensures
        any_row(rows.take(i + 1), on_hotspot) == (any_row(rows.take(i), on_hotspot) || on_hotspot(rows[i])),
{
    if on_hotspot(rows[i]) {
        assert(rows.take(i + 1)[i] == rows[i]);
    }
    if any_row(rows.take(i + 1), on_hotspot) && !on_hotspot(rows[i]) {
        let k = choose|k: int| 0 <= k < i + 1 && on_hotspot(#[trigger] rows.take(i + 1)[k]);
        assert(rows.take(i)[k] == rows.take(i + 1)[k]);
    }
    if any_row(rows.take(i), on_hotspot) {
        let k = choose|k: int| 0 <= k < i && on_hotspot(#[trigger] rows.take(i)[k]);
        assert(rows.take(i)[k] == rows.take(i + 1)[k]);
    }
}

// ---------------------------------------------------------------------------
// ARP table
// ---------------------------------------------------------------------------

/// Whether a row of `/proc/net/arp` belongs to the hotspot: it has six
/// columns or more and its device column names the hotspot interface.
pub open spec fn arp_row_on_hotspot(columns: Seq<Seq<char>>) -> bool {
    columns.len() >= 6 && hotspot_interface(columns[5])
}

/// The client that a row of `/proc/net/arp` shows: the lower-case hardware
/// address of a complete entry on the hotspot interface.
pub open spec fn arp_row_client(columns: Seq<Seq<char>>) -> Option<Seq<char>> {
    if arp_row_on_hotspot(columns) && complete_arp_flags(columns[2]) && usable_mac(lowercase(columns[3])) {
        Some(lowercase(columns[3]))
    } else {
        None
    }
}

/// The distinct clients that `rows` show.
pub open spec fn arp_clients(rows: Seq<Seq<Seq<char>>>) -> Set<Seq<char>>
    decreases rows.len(),
{
    if rows.len() == 0 {
        Set::empty()
    } else {
        match arp_row_client(rows.last()) {
            Some(mac) => arp_clients(rows.drop_last()).insert(mac),
            None => arp_clients(rows.drop_last()),
        }
    }
}

/// What `/proc/net/arp` shows of the hotspot's clients; its first line is a header.
pub open spec fn arp_estimate(arp_table: Seq<char>) -> Option<u32> {
    let rows = line_columns(arp_table).skip(1);
    count_estimate(any_row(rows, |c: Seq<Seq<char>>| arp_row_on_hotspot(c)), arp_clients(rows))
}

/// What the summary of `/proc/net/arp` says of one row with six columns or
/// more: its flags and its interface.
pub open spec fn arp_summary_entry(columns: Seq<Seq<char>>) -> Option<Seq<char>> {
    if columns.len() >= 6 {
        Some("flags="@ + columns[2] + " iface="@ + columns[5])
    } else {
        None
    }
}

/// The summary entries of `rows`, in order.
pub open spec fn arp_summary_entries(rows: Seq<Seq<Seq<char>>>) -> Seq<Seq<char>>
    decreases rows.len(),
{
    if rows.len() == 0 {
        Seq::empty()
    } else {
        match arp_summary_entry(rows.last()) {
            Some(entry) => arp_summary_entries(rows.drop_last()).push(entry),
            None => arp_summary_entries(rows.drop_last()),
        }
    }
}

/// `items` joined with `sep` between each two.
pub open spec fn joined(items: Seq<Seq<char>>, sep: Seq<char>) -> Seq<char>
    decreases items.len(),
{
    if items.len() == 0 {
        Seq::empty()
    } else if items.len() == 1 {
        items[0]
    } else {
        joined(items.drop_last(), sep) + sep + items.last()
    }
}

/// The rows that the summary of `/proc/net/arp` looks at: the first eight
/// after the header.
pub open spec fn arp_summary_rows(arp_table: Seq<char>) -> Seq<Seq<Seq<char>>> {
    let rows = line_columns(arp_table).skip(1);
    if rows.len() > 8 {
        rows.take(8)
    } else {
        rows
    }
}

/// A one-line account of the first eight rows of `/proc/net/arp`, for the log.
pub open spec fn arp_summary(arp_table: Seq<char>) -> Seq<char> {
    let entries = arp_summary_entries(arp_summary_rows(arp_table));
    if entries.len() == 0 {
        "arp entries=<empty>"@
    } else {
        "arp entries="@ + joined(entries, ", "@)
    }
}

/// The flags and interface of each of the first eight rows of `/proc/net/arp`
/// that have six columns or more, for the log.
pub fn summarize_arp_table(arp_table: &str) -> (summary: String)
    ensures
        summary@ == arp_summary(arp_table@),
{
    let lines = lines_of(arp_table);
    let ghost rows = arp_summary_rows(arp_table@);
    proof {
        lemma_split_on_nonempty(arp_table@, '\n');
    }
    let end: usize = if lines.len() > 9 {
        9
    } else {
        lines.len()
    };
    assert(rows.len() == end - 1);
    let mut body = String::new();
    let mut found: usize = 0;
    let mut i: usize = 1;
    while i < end
        invariant
            1 <= i <= end,
            end <= lines@.len(),
            rows.len() == end - 1,
            views(lines@) == split_on(arp_table@, '\n'),
            rows == arp_summary_rows(arp_table@),
            found <= i - 1,
            found == arp_summary_entries(rows.take(i - 1)).len(),
            body@ == joined(arp_summary_entries(rows.take(i - 1)), ", "@),
        decreases end - i,
    {
        let columns = words_of(&lines[i]);
        let ghost row = rows[i - 1];
        assert(row == views(columns@)) by {
            assert(views(lines@)[i as int] == lines@[i as int]@);
            assert(line_columns(arp_table@).skip(1)[i - 1] == line_columns(arp_table@)[i as int]);
        }
        let ghost before = arp_summary_entries(rows.take(i - 1));
        assert(rows.take(i as int).drop_last() =~= rows.take(i - 1));
        assert(rows.take(i as int).last() == row);
        if columns.len() >= 6 {
            assert(views(columns@)[2] == columns@[2]@);
            assert(views(columns@)[5] == columns@[5]@);
            let ghost entry = "flags="@ + row[2] + " iface="@ + row[5];
            if found > 0 {
                body.append(", ");
            }
            body.append("flags=");
            push_chars(&mut body, &columns[2]);
            body.append(" iface=");
            push_chars(&mut body, &columns[5]);
            proof {
                let after = before.push(entry);
                assert(after.drop_last() =~= before);
                if before.len() == 0 {
                    assert(body@ =~= entry);
                } else {
                    assert(body@ =~= joined(before, ", "@) + ", "@ + entry);
                }
            }
            found = found + 1;
        }
        i = i + 1;
    }
    assert(rows.take(i - 1) =~= rows);
    let mut summary = String::from_str("arp entries=");
    if found == 0 {
        summary.append("<empty>");
        proof {
            reveal_strlit("arp entries=");
            reveal_strlit("<empty>");
            reveal_strlit("arp entries=<empty>");
        }
        assert(summary@ =~= "arp entries=<empty>"@);
    } else {
        summary.append(body.as_str());
    }
    summary
}

/// A row of `/proc/net/arp` with six columns or more whose device names the
/// hotspot interface (`swlan0`, `ap0`, ...) is on the hotspot, and it shows a
/// client, its lower-case MAC, exactly when its flags mark it complete
/// (`0x2` does, `0x0` does not) and that MAC is usable.
pub proof fn lemma_arp_row(columns: Seq<Seq<char>>)
    ensures
        complete_arp_flags("0x2"@),
        !complete_arp_flags("0x0"@),
        columns.len() >= 6 && hotspot_interface(columns[5]) ==> arp_row_on_hotspot(columns),
        columns.len() >= 6 && hotspot_interface(columns[5]) && complete_arp_flags(columns[2]) && usable_mac(
            lowercase(columns[3]),
        ) ==> arp_row_client(columns) == Some(lowercase(columns[3])),
        !complete_arp_flags(columns[2]) ==> arp_row_client(columns) is None,
        columns.len() < 6 ==> !arp_row_on_hotspot(columns) && arp_row_client(columns) is None,
{
    reveal_strlit("0x2");
    reveal_strlit("0x0");
    reveal_strlit("0x");
    let two = "0x2"@.skip(2);
    let zero = "0x0"@.skip(2);
    assert(two =~= seq!['2']);
    assert(zero =~= seq!['0']);
    assert("0x2"@.subrange(0, 2) =~= "0x"@);
    assert("0x0"@.subrange(0, 2) =~= "0x"@);
    assert(digit_of('2', 16) == Some(2nat));
    assert(digit_of('0', 16) == Some(0nat));
    assert(two.drop_last() =~= Seq::<char>::empty());
    assert(zero.drop_last() =~= Seq::<char>::empty());
    assert(digits_value(two.drop_last(), 16) == 0);
    assert(digits_value(zero.drop_last(), 16) == 0);
    assert(two.last() == '2' && zero.last() == '0');
    assert(digits_value(two, 16) == 2);
    assert(digits_value(zero, 16) == 0);
    assert(all_digits(two, 16));
    assert(all_digits(zero, 16));
    assert(arp_flags_value("0x2"@) == 2);
    assert(arp_flags_value("0x0"@) == 0);
    assert((2nat as u32) & 2u32 != 0) by (bit_vector);
    assert((0nat as u32) & 2u32 == 0) by (bit_vector);
}

/// Counts the distinct complete clients of the hotspot interface in the text
/// of `/proc/net/arp`; `None` when no row is on the hotspot interface.
pub fn estimate_count_from_arp(arp_table: &str) -> (count: Option<u32>)
    ensures
        count == arp_estimate(arp_table@),
{
    let lines = lines_of(arp_table);
    let ghost rows = line_columns(arp_table@).skip(1);
    let ghost on_hotspot = |c: Seq<Seq<char>>| arp_row_on_hotspot(c);
    proof {
        lemma_split_on_nonempty(arp_table@, '\n');
    }
    assert(rows.len() == lines@.len() - 1);
    let mut saw_hotspot_interface = false;
    let mut clients: Vec<Vec<char>> = Vec::new();
    let mut i: usize = 1;
    while i < lines.len()
        invariant
            1 <= i <= lines@.len(),
            views(lines@) == split_on(arp_table@, '\n'),
            rows == line_columns(arp_table@).skip(1),
            rows.len() == lines@.len() - 1,
            on_hotspot == (|c: Seq<Seq<char>>| arp_row_on_hotspot(c)),
            saw_hotspot_interface == any_row(rows.take(i - 1), on_hotspot),
            views(clients@).no_duplicates(),
            views(clients@).to_set() == arp_clients(rows.take(i - 1)),
        decreases lines@.len() - i,
    {
        let columns = words_of(&lines[i]);
        let ghost row = rows[i - 1];
        assert(row == views(columns@)) by {
            assert(views(lines@)[i as int] == lines@[i as int]@);
        }
        proof {
            lemma_any_row_take(rows, on_hotspot, i - 1);
            assert(rows.take(i as int).drop_last() =~= rows.take(i - 1));
            assert(rows.take(i as int).last() == row);
        }
        if columns.len() >= 6 && is_hotspot_interface(&columns[5]) {
            assert(views(columns@)[5] == columns@[5]@);
            saw_hotspot_interface = true;
            let mac = lowercase_chars(&columns[3]);
            assert(views(columns@)[3] == columns@[3]@);
            assert(views(columns@)[2] == columns@[2]@);
            if is_complete_arp_entry(&columns[2]) && is_usable_mac(&mac) {
                insert_distinct_chars(&mut clients, mac);
            }
        } else {
            assert(columns@.len() >= 6 ==> views(columns@)[5] == columns@[5]@);
        }
        i = i + 1;
    }
    assert(rows.take(i - 1) =~= rows);
    proof {
        views(clients@).unique_seq_to_set();
    }
    if saw_hotspot_interface {
        Some(#[verifier::truncate] (clients.len() as u32))
    } else {
        None
    }
}

// ---------------------------------------------------------------------------
// `ip neigh show`
// ---------------------------------------------------------------------------

/// Whether a line of `ip neigh show` is on the hotspot: it has an address
/// column and its `dev` column names the hotspot interface.
pub open spec fn ip_row_on_hotspot(columns: Seq<Seq<char>>) -> bool {
    &&& columns.len() >= 1
    &&& value_after(columns, "dev"@) is Some
    &&& hotspot_interface(value_after(columns, "dev"@)->0)
}

/// Whether some column of a line names an active neighbour state.
pub open spec fn has_active_state(columns: Seq<Seq<char>>) -> bool {
    exists|j: int| 0 <= j < columns.len() && active_neighbor_state_name(#[trigger] columns[j])
}

/// The client that a line of `ip neigh show` shows: the lower-case `lladdr`
/// of an IPv4 neighbour in an active state on the hotspot interface.
pub open spec fn ip_row_client(columns: Seq<Seq<char>>) -> Option<Seq<char>> {
    let mac = value_after(columns, "lladdr"@);
    if ip_row_on_hotspot(columns) && ipv4_address(columns[0]) && has_active_state(columns)
        && mac is Some && usable_mac(lowercase(mac->0)) {
        Some(lowercase(mac->0))
    } else {
        None
    }
}

/// The distinct clients that `rows` of `ip neigh show` show.
pub open spec fn ip_clients(rows: Seq<Seq<Seq<char>>>) -> Set<Seq<char>>
    decreases rows.len(),
{
    if rows.len() == 0 {
        Set::empty()
    } else {
        match ip_row_client(rows.last()) {
            Some(mac) => ip_clients(rows.drop_last()).insert(mac),
            None => ip_clients(rows.drop_last()),
        }
    }
}

/// What the output of `ip neigh show` shows of the hotspot's clients.
pub open spec fn ip_neigh_estimate(output: Seq<char>) -> Option<u32> {
    let rows = line_columns(output);
    count_estimate(any_row(rows, |c: Seq<Seq<char>>| ip_row_on_hotspot(c)), ip_clients(rows))
}

fn has_active_state_column(columns: &Vec<Vec<char>>) -> (r: bool)
    ensures
        r == has_active_state(views(columns@)),
{
    let mut j: usize = 0;
    while j < columns.len()
        invariant
            j <= columns@.len(),
            forall|k: int| 0 <= k < j ==> !active_neighbor_state_name(#[trigger] views(columns@)[k]),
        decreases columns@.len() - j,
    {
        assert(views(columns@)[j as int] == columns@[j as int]@);
        if is_active_neighbor_state_name(&columns[j]) {
            return true;
        }
        j = j + 1;
    }
    false
}

/// Counts the distinct clients in an active state on the hotspot interface in
/// the output of `ip neigh show`; `None` when no line is on the hotspot interface.
pub fn estimate_count_from_ip_neigh(output: &str) -> (count: Option<u32>)
    ensures
        count == ip_neigh_estimate(output@),
{
    let lines = lines_of(output);
    let ghost rows = line_columns(output@);
    let ghost on_hotspot = |c: Seq<Seq<char>>| ip_row_on_hotspot(c);
    let dev = chars_of("dev");
    let lladdr = chars_of("lladdr");
    let mut saw_hotspot_interface = false;
    let mut clients: Vec<Vec<char>> = Vec::new();
    let mut i: usize = 0;
    while i < lines.len()
        invariant
            i <= lines@.len(),
            views(lines@) == split_on(output@, '\n'),
            rows == line_columns(output@),
            rows.len() == lines@.len(),
            dev@ == "dev"@,
            lladdr@ == "lladdr"@,
            on_hotspot == (|c: Seq<Seq<char>>| ip_row_on_hotspot(c)),
            saw_hotspot_interface == any_row(rows.take(i as int), on_hotspot),
            views(clients@).no_duplicates(),
            views(clients@).to_set() == ip_clients(rows.take(i as int)),
        decreases lines@.len() - i,
    {
        let columns = words_of(&lines[i]);
        let ghost row = rows[i as int];
        assert(row == views(columns@)) by {
            assert(views(lines@)[i as int] == lines@[i as int]@);
        }
        proof {
            lemma_any_row_take(rows, on_hotspot, i as int);
            assert(rows.take(i + 1).drop_last() =~= rows.take(i as int));
            assert(rows.take(i + 1).last() == row);
        }
        if columns.len() >= 1 {
            assert(views(columns@)[0] == columns@[0]@);
            if let Some(d) = value_after_index(&columns, &dev) {
                if is_hotspot_interface(&columns[d + 1]) {
                    saw_hotspot_interface = true;
                    if is_ipv4_address(&columns[0]) && has_active_state_column(&columns) {
                        if let Some(m) = value_after_index(&columns, &lladdr) {
                            let mac = lowercase_chars(&columns[m + 1]);
                            if is_usable_mac(&mac) {
                                insert_distinct_chars(&mut clients, mac);
                            }
                        }
                    }
                }
            }
        }
        i = i + 1;
    }
    assert(rows.take(i as int) =~= rows);
    proof {
        views(clients@).unique_seq_to_set();
    }
    if saw_hotspot_interface {
        Some(#[verifier::truncate] (clients.len() as u32))
    } else {
        None
    }
}

// ---------------------------------------------------------------------------
// `dumpsys wifi`
// ---------------------------------------------------------------------------

/// The number that follows `mNumAssociatedStations:` on a line, read as
/// `str::trim` then `str::parse::<u32>` read it.
pub open spec fn station_count(line: Seq<char>) -> Option<u32> {
    let key = "mNumAssociatedStations:"@;
    match find_from(line, key, 0) {
        Some(i) => match parse_unsigned(trim(line.skip(i + key.len())), 10, u32::MAX as nat) {
            Some(v) => Some(v as u32),
            None => None,
        },
        None => None,
    }
}

/// The station count of the first line that has one.
pub open spec fn first_station_count(lines: Seq<Seq<char>>) -> Option<u32>
    decreases lines.len(),
{
    if lines.len() == 0 {
        None
    } else {
        match station_count(lines[0]) {
            Some(v) => Some(v),
            None => first_station_count(lines.drop_first()),
        }
    }
}

/// Reads the number of associated stations from the output of `dumpsys wifi`:
/// that of the first line on which it can be read.
pub fn estimate_count_from_dumpsys_wifi(wifi_dump: &str) -> (count: Option<u32>)
    ensures
        count == first_station_count(split_on(wifi_dump@, '\n')),
{
    let lines = lines_of(wifi_dump);
    let key = chars_of("mNumAssociatedStations:");
    let ghost all = split_on(wifi_dump@, '\n');
    let mut i: usize = 0;
    assert(all.skip(0) =~= all);
    while i < lines.len()
        invariant
            i <= lines@.len(),
            views(lines@) == all,
            all == split_on(wifi_dump@, '\n'),
            key@ == "mNumAssociatedStations:"@,
            first_station_count(all) == first_station_count(all.skip(i as int)),
        decreases lines@.len() - i,
    {
        let line = &lines[i];
        assert(all.skip(i as int)[0] == line@);
        assert(all.skip(i as int).drop_first() =~= all.skip(i + 1));
        if let Some(pos) = find_chars(line, &key) {
            proof {
                lemma_find_from_found(line@, key@, 0);
            }
            let line_len = line.len();
            let key_len = key.len();
            assert(pos + key_len <= line_len);
            let rest = trim_from(line, pos + key_len);
            assert(rest@.skip(0) =~= rest@);
            if let Some(v) = parse_unsigned_from(&rest, 0, 10, 0xffff_ffff) {
                return Some(v as u32);
            }
        }
        i = i + 1;
    }
    None
}

// ---------------------------------------------------------------------------
// Neighbour table entries
// ---------------------------------------------------------------------------

/// One entry of the kernel's neighbour table.
pub struct NeighborEntry<'a> {
    pub interface_name: &'a str,
    pub state: u16,
    pub link_address: &'a [u8],
}

/// The plain values of a neighbour entry.
pub struct NeighborEntryView {
    pub interface_name: Seq<char>,
    pub state: u16,
    pub link_address: Seq<u8>,
}

impl<'a> View for NeighborEntry<'a> {
    type V = NeighborEntryView;

    open spec fn view(&self) -> NeighborEntryView {
        NeighborEntryView {
            interface_name: self.interface_name@,
            state: self.state,
            link_address: self.link_address@,
        }
    }
}

/// The plain values of a sequence of neighbour entries.
pub open spec fn entry_views<'a>(entries: Seq<NeighborEntry<'a>>) -> Seq<NeighborEntryView> {
    entries.map_values(|e: NeighborEntry<'a>| e@)
}

/// The client that a neighbour entry shows: its six-byte, non-zero link
/// address when it is on the hotspot interface in an active state.
pub open spec fn neighbor_client(interface_name: Seq<char>, state: u16, link_address: Seq<u8>) -> Option<Seq<u8>> {
    if hotspot_interface(interface_name) && active_neighbor_state(state) && link_address.len() == 6
        && !zero_link_address(link_address) {
        Some(link_address)
    } else {
        None
    }
}

/// The client that `entry` shows, if any.
pub open spec fn entry_client(entry: NeighborEntryView) -> Option<Seq<u8>> {
    neighbor_client(entry.interface_name, entry.state, entry.link_address)
}

/// The distinct clients that `entries` show.
pub open spec fn neighbor_clients(entries: Seq<NeighborEntryView>) -> Set<Seq<u8>>
    decreases entries.len(),
{
    if entries.len() == 0 {
        Set::empty()
    } else {
        match entry_client(entries.last()) {
            Some(address) => neighbor_clients(entries.drop_last()).insert(address),
            None => neighbor_clients(entries.drop_last()),
        }
    }
}

/// Whether some entry is on the hotspot interface.
pub open spec fn neighbors_on_hotspot(entries: Seq<NeighborEntryView>) -> bool {
    exists|i: int| 0 <= i < entries.len() && hotspot_interface((#[trigger] entries[i]).interface_name)
}

/// What entries show, one entry more.
proof fn lemma_entries_push(entries: Seq<NeighborEntryView>, entry: NeighborEntryView)
    ensures
        neighbors_on_hotspot(entries.push(entry)) == (neighbors_on_hotspot(entries) || hotspot_interface(
            entry.interface_name,
        )),
        neighbor_clients(entries.push(entry)) == match entry_client(entry) {
            Some(address) => neighbor_clients(entries).insert(address),
            None => neighbor_clients(entries),
        },
{
    let t = entries.push(entry);
    assert(t.drop_last() =~= entries);
    assert(t.last() == entry);
    if hotspot_interface(entry.interface_name) {
        assert(t[entries.len() as int] == entry);
    }
    if neighbors_on_hotspot(t) && !hotspot_interface(entry.interface_name) {
        let k = choose|k: int| 0 <= k < t.len() && hotspot_interface((#[trigger] t[k]).interface_name);
        assert(entries[k] == t[k]);
    }
    if neighbors_on_hotspot(entries) {
        let k = choose|k: int| 0 <= k < entries.len() && hotspot_interface((#[trigger] entries[k]).interface_name);
        assert(entries[k] == t[k]);
    }
}

/// What two runs of entries show together.
proof fn lemma_entries_append(first: Seq<NeighborEntryView>, second: Seq<NeighborEntryView>)
    ensures
        neighbors_on_hotspot(first + second) == (neighbors_on_hotspot(first) || neighbors_on_hotspot(second)),
        neighbor_clients(first + second) == neighbor_clients(first).union(neighbor_clients(second)),
    decreases second.len(),
{
    if second.len() == 0 {
        assert(first + second =~= first);
        assert(neighbor_clients(first).union(Set::empty()) =~= neighbor_clients(first));
        assert(!neighbors_on_hotspot(second));
    } else {
        let e = second.last();
        let before = second.drop_last();
        lemma_entries_append(first, before);
        assert(first + second =~= (first + before).push(e));
        assert(before.push(e) =~= second);
        lemma_entries_push(first + before, e);
        lemma_entries_push(before, e);
        if let Some(address) = entry_client(e) {
            assert(neighbor_clients(first).union(neighbor_clients(before)).insert(address) =~= neighbor_clients(
                first,
            ).union(neighbor_clients(before).insert(address)));
        }
    }
}

/// What has been seen of the hotspot's clients in neighbour entries so far.
pub struct NeighborTally {
    saw_hotspot_interface: bool,
    clients: Vec<Vec<u8>>,
}

impl NeighborTally {
    /// Whether an entry on the hotspot interface has been seen.
    pub closed spec fn saw_hotspot_interface(&self) -> bool {
        self.saw_hotspot_interface
    }

    /// The distinct clients seen.
    pub closed spec fn clients(&self) -> Set<Seq<u8>> {
        byte_views(self.clients@).to_set()
    }

    pub closed spec fn wf(&self) -> bool {
        byte_views(self.clients@).no_duplicates()
    }

    pub fn new() -> (tally: Self)
        ensures
            tally.wf(),
            !tally.saw_hotspot_interface(),
            tally.clients() == Set::<Seq<u8>>::empty(),
    {
        let tally = NeighborTally { saw_hotspot_interface: false, clients: Vec::new() };
        assert(byte_views(tally.clients@).to_set() =~= Set::<Seq<u8>>::empty());
        tally
    }

    /// Takes one neighbour entry into account: the flag is never cleared, no
    /// client is forgotten, and at most one is added.
    pub fn add_neighbor_entry(&mut self, interface_name: &str, state: u16, link_address: &[u8])
        requires
            old(self).wf(),
        ensures
            final(self).wf(),
            final(self).clients().finite(),
            old(self).clients().subset_of(final(self).clients()),
            final(self).clients().len() <= old(self).clients().len() + 1,
            final(self).saw_hotspot_interface() == (old(self).saw_hotspot_interface() || hotspot_interface(interface_name@)),
            final(self).clients() == match neighbor_client(interface_name@, state, link_address@) {
                Some(address) => old(self).clients().insert(address),
                None => old(self).clients(),
            },
    {
        proof {
            broadcast use vstd::seq_lib::seq_to_set_is_finite, vstd::set::axiom_set_insert_len;

            assert(old(self).clients().finite());
            if let Some(address) = neighbor_client(interface_name@, state, link_address@) {
                assert(old(self).clients().insert(address).len() <= old(self).clients().len() + 1);
            }
        }
        if !is_hotspot_interface(&chars_of(interface_name)) {
            return;
        }
        self.saw_hotspot_interface = true;
        if is_active_neighbor_state(state) && link_address.len() == 6 && !is_zero_link_address(link_address) {
            let mut i: usize = 0;
            while i < self.clients.len()
                invariant
                    i <= self.clients@.len(),
                    self.clients@ == old(self).clients@,
                    self.saw_hotspot_interface,
                    hotspot_interface(interface_name@),
                    byte_views(self.clients@).no_duplicates(),
                    forall|k: int| 0 <= k < i ==> self.clients@[k]@ != link_address@,
                decreases self.clients@.len() - i,
            {
                if bytes_eq(link_address, &self.clients[i]) {
                    proof {
                        assert(byte_views(self.clients@)[i as int] == link_address@);
                        lemma_insert_distinct(byte_views(self.clients@), link_address@);
                    }
                    return;
                }
                i = i + 1;
            }
            proof {
                assert(!byte_views(self.clients@).contains(link_address@));
                lemma_insert_distinct(byte_views(self.clients@), link_address@);
            }
            let ghost before = byte_views(self.clients@);
            self.clients.push(bytes_to_vec(link_address));
            assert(byte_views(self.clients@) =~= before.push(link_address@));
        }
    }

    /// The estimate: `None` when no entry was on the hotspot interface, else
    /// the number of distinct clients.
    pub fn count(&self) -> (count: Option<u32>)
        requires
            self.wf(),
        ensures
            count == count_estimate(self.saw_hotspot_interface(), self.clients()),
    {
        proof {
            byte_views(self.clients@).unique_seq_to_set();
        }
        if self.saw_hotspot_interface {
            Some(#[verifier::truncate] (self.clients.len() as u32))
        } else {
            None
        }
    }
}

/// Whether `tally` holds what `entries` show: whether one of them is on the
/// hotspot interface, and their distinct clients.
pub open spec fn tally_of(tally: NeighborTally, entries: Seq<NeighborEntryView>) -> bool {
    &&& tally.saw_hotspot_interface() == neighbors_on_hotspot(entries)
    &&& tally.clients() == neighbor_clients(entries)
}

/// A tally fed neighbour entries one by one holds what they show: if it held
/// what `entries` show, then after `entry` it holds what `entries` followed by
/// `entry` show, and counts as `estimate_count_from_neighbors` counts them. A
/// new tally holds what no entry shows, so a neighbour dump counted entry by
/// entry gives the count of its entries.
pub proof fn lemma_tally_follows_entries(
    before: NeighborTally,
    after: NeighborTally,
    entries: Seq<NeighborEntryView>,
    entry: NeighborEntryView,
)
    requires
        tally_of(before, entries),
        after.saw_hotspot_interface() == (before.saw_hotspot_interface() || hotspot_interface(entry.interface_name)),
        after.clients() == match entry_client(entry) {
            Some(address) => before.clients().insert(address),
            None => before.clients(),
        },
    ensures
        tally_of(after, entries.push(entry)),
        count_estimate(after.saw_hotspot_interface(), after.clients()) == count_estimate(
            neighbors_on_hotspot(entries.push(entry)),
            neighbor_clients(entries.push(entry)),
        ),
{
    lemma_entries_push(entries, entry);
}

/// How a neighbour dump goes on once the neighbours of a chunk that ends with
/// `end` are in `tally`: `Some` with the estimate when the dump is over (the
/// tally's count after `NLMSG_DONE`; nothing after an error or a malformed
/// message), `None` while more chunks follow.
pub fn neighbor_dump_outcome(tally: &NeighborTally, end: ChunkEnd) -> (outcome: Option<Option<u32>>)
    requires
        tally.wf(),
    ensures
        outcome == match end {
            ChunkEnd::Done => Some(count_estimate(tally.saw_hotspot_interface(), tally.clients())),
            ChunkEnd::Error | ChunkEnd::Malformed => Some(None),
            ChunkEnd::MoreToCome => None,
        },
{
    match end {
        ChunkEnd::Done => Some(tally.count()),
        ChunkEnd::Error | ChunkEnd::Malformed => Some(None),
        ChunkEnd::MoreToCome => None,
    }
}

/// Counts the distinct clients in an active state on the hotspot interface
/// among `entries`; `None` when no entry is on the hotspot interface.
pub fn estimate_count_from_neighbors(entries: &[NeighborEntry<'_>]) -> (count: Option<u32>)
    ensures
        count == count_estimate(neighbors_on_hotspot(entry_views(entries@)), neighbor_clients(entry_views(entries@))),
{
    let ghost views = entry_views(entries@);
    let mut tally = NeighborTally::new();
    let mut i: usize = 0;
    assert(views.take(0) =~= Seq::<NeighborEntryView>::empty());
    while i < entries.len()
        invariant
            i <= entries@.len(),
            views == entry_views(entries@),
            tally.wf(),
            tally_of(tally, views.take(i as int)),
        decreases entries@.len() - i,
    {
        let entry = &entries[i];
        let ghost before = tally;
        tally.add_neighbor_entry(entry.interface_name, entry.state, entry.link_address);
        proof {
            assert(views[i as int] == entry@);
            lemma_tally_follows_entries(before, tally, views.take(i as int), entry@);
            assert(views.take(i as int).push(entry@) =~= views.take(i + 1));
        }
        i = i + 1;
    }
    assert(views.take(i as int) =~= views);
    tally.count()
}

// ---------------------------------------------------------------------------
// Neighbour dumps
// ---------------------------------------------------------------------------

/// The neighbour entries of a chunk's records, each with the name found for
/// its interface; a record whose interface has no name is left out.
pub open spec fn chunk_entries(records: Seq<NeighborRecordView>, names: Seq<Option<Seq<char>>>) -> Seq<
    NeighborEntryView,
>
    decreases records.len(),
{
    if records.len() == 0 || names.len() == 0 {
        Seq::empty()
    } else {
        let earlier = chunk_entries(records.drop_last(), names.drop_last());
        match names.last() {
            Some(name) => earlier.push(
                NeighborEntryView {
                    interface_name: name,
                    state: records.last().state,
                    link_address: records.last().link_address,
                },
            ),
            None => earlier,
        }
    }
}

/// The plain values of the names found for a chunk's records.
pub open spec fn name_views(names: Seq<Option<String>>) -> Seq<Option<Seq<char>>> {
    names.map_values(
        |n: Option<String>|
            match n {
                Some(name) => Some(name@),
                None => None,
            },
    )
}

/// Whether `after` is `before` with the entries of a chunk added.
pub open spec fn tally_took(before: NeighborTally, after: NeighborTally, added: Seq<NeighborEntryView>) -> bool {
    &&& after.saw_hotspot_interface() == (before.saw_hotspot_interface() || neighbors_on_hotspot(added))
    &&& after.clients() == before.clients().union(neighbor_clients(added))
}

/// How a dump goes on at a chunk that ends with `end`, with `tally` holding
/// what the dump has shown so far.
pub open spec fn dump_step_outcome(tally: NeighborTally, end: ChunkEnd) -> Option<Option<u32>> {
    match end {
        ChunkEnd::Done => Some(count_estimate(tally.saw_hotspot_interface(), tally.clients())),
        ChunkEnd::Error | ChunkEnd::Malformed => Some(None),
        ChunkEnd::MoreToCome => None,
    }
}

/// Takes one parsed chunk of a neighbour dump into `tally`: each neighbour
/// whose interface has a name (`names[i]` for `chunk.neighbors[i]`) is added,
/// and the result says how the dump goes on, as `neighbor_dump_outcome`.
pub fn take_dump_chunk(tally: &mut NeighborTally, chunk: &NetlinkChunk, names: &[Option<String>]) -> (outcome:
    Option<Option<u32>>)
    requires
        old(tally).wf(),
        names@.len() == chunk.neighbors@.len(),
    ensures
        final(tally).wf(),
        tally_took(
            *old(tally),
            *final(tally),
            chunk_entries(record_views(chunk.neighbors@), name_views(names@)),
        ),
        outcome == dump_step_outcome(*final(tally), chunk.end),
{
    let ghost records = record_views(chunk.neighbors@);
    let ghost found = name_views(names@);
    let mut i: usize = 0;
    assert(chunk_entries(records.take(0), found.take(0)) =~= Seq::<NeighborEntryView>::empty());
    assert(old(tally).clients().union(Set::empty()) =~= old(tally).clients());
    while i < chunk.neighbors.len()
        invariant
            i <= chunk.neighbors@.len(),
            names@.len() == chunk.neighbors@.len(),
            records == record_views(chunk.neighbors@),
            found == name_views(names@),
            tally.wf(),
            tally_took(*old(tally), *tally, chunk_entries(records.take(i as int), found.take(i as int))),
        decreases chunk.neighbors@.len() - i,
    {
        let ghost added = chunk_entries(records.take(i as int), found.take(i as int));
        let ghost before = *tally;
        let neighbor = &chunk.neighbors[i];
        proof {
            assert(records.take(i + 1).drop_last() =~= records.take(i as int));
            assert(found.take(i + 1).drop_last() =~= found.take(i as int));
            assert(records.take(i + 1).last() == neighbor@);
        }
        match &names[i] {
            Some(name) => {
                assert(found.take(i + 1).last() == Some(name@));
                tally.add_neighbor_entry(name.as_str(), neighbor.state, neighbor.link_address.as_slice());
                proof {
                    let entry = NeighborEntryView {
                        interface_name: name@,
                        state: neighbor.state,
                        link_address: neighbor.link_address@,
                    };
                    assert(chunk_entries(records.take(i + 1), found.take(i + 1)) == added.push(entry));
                    lemma_entries_push(added, entry);
                    if let Some(address) = entry_client(entry) {
                        assert(old(tally).clients().union(neighbor_clients(added)).insert(address)
                            =~= old(tally).clients().union(neighbor_clients(added).insert(address)));
                    }
                }
            },
            None => {
                assert(found.take(i + 1).last() == None::<Seq<char>>);
                assert(chunk_entries(records.take(i + 1), found.take(i + 1)) == added);
            },
        }
        i = i + 1;
    }
    assert(records.take(i as int) =~= records);
    assert(found.take(i as int) =~= found);
    neighbor_dump_outcome(tally, chunk.end)
}

/// The neighbour entries of a whole dump: those of each chunk in turn, with
/// the names found for its records.
pub open spec fn dump_entries(chunks: Seq<Seq<u8>>, names: Seq<Seq<Option<Seq<char>>>>) -> Seq<NeighborEntryView>
    decreases chunks.len(),
{
    if chunks.len() == 0 || names.len() == 0 {
        Seq::empty()
    } else {
        dump_entries(chunks.drop_last(), names.drop_last()) + chunk_entries(
            walk_messages(chunks.last(), 0).0,
            names.last(),
        )
    }
}

/// How a neighbour dump whose chunks are `chunks` ends at its last chunk: the
/// count of all its entries after `NLMSG_DONE`, nothing after an error or a
/// malformed message, and `None` while more chunks follow.
pub open spec fn dump_result(chunks: Seq<Seq<u8>>, names: Seq<Seq<Option<Seq<char>>>>) -> Option<Option<u32>> {
    let entries = dump_entries(chunks, names);
    match walk_messages(chunks.last(), 0).1 {
        ChunkEnd::Done => Some(count_estimate(neighbors_on_hotspot(entries), neighbor_clients(entries))),
        ChunkEnd::Error | ChunkEnd::Malformed => Some(None),
        ChunkEnd::MoreToCome => None,
    }
}

/// A whole neighbour dump, chunk by chunk: a new tally that takes each chunk
/// of `chunks` in turn (with `names[k]` found for the records of chunk `k`)
/// holds what all their entries show, and at the last chunk the dump's result
/// is that of `dump_result`: after `NLMSG_DONE`, the count that
/// `estimate_count_from_neighbors` gives for all the entries of the dump.
pub proof fn lemma_dump_count(
    chunks: Seq<Seq<u8>>,
    names: Seq<Seq<Option<Seq<char>>>>,
    tallies: Seq<NeighborTally>,
)
    requires
        chunks.len() > 0,
        names.len() == chunks.len(),
        tallies.len() == chunks.len() + 1,
        !tallies[0].saw_hotspot_interface(),
        tallies[0].clients() == Set::<Seq<u8>>::empty(),
        forall|k: int|
            0 <= k < chunks.len() ==> tally_took(
                #[trigger] tallies[k],
                tallies[k + 1],
                chunk_entries(walk_messages(chunks[k], 0).0, names[k]),
            ),
    ensures
        tally_of(tallies.last(), dump_entries(chunks, names)),
        dump_step_outcome(tallies.last(), walk_messages(chunks.last(), 0).1) == dump_result(chunks, names),
    decreases chunks.len(),
{
    let k = chunks.len() - 1;
    let added = chunk_entries(walk_messages(chunks[k], 0).0, names[k]);
    let earlier = dump_entries(chunks.drop_last(), names.drop_last());
    assert(tally_took(tallies[k], tallies[k + 1], added));
    if chunks.len() == 1 {
        assert(dump_entries(chunks.drop_last(), names.drop_last()) =~= Seq::<NeighborEntryView>::empty());
        assert(!neighbors_on_hotspot(earlier));
        assert(earlier + added =~= added);
        assert(Set::<Seq<u8>>::empty().union(neighbor_clients(added)) =~= neighbor_clients(added));
    } else {
        let fewer_tallies = tallies.drop_last();
        assert forall|j: int| 0 <= j < chunks.drop_last().len() implies tally_took(
            #[trigger] fewer_tallies[j],
            fewer_tallies[j + 1],
            chunk_entries(walk_messages(chunks.drop_last()[j], 0).0, names.drop_last()[j]),
        ) by {
            assert(tally_took(tallies[j], tallies[j + 1], chunk_entries(walk_messages(chunks[j], 0).0, names[j])));
        }
        lemma_dump_count(chunks.drop_last(), names.drop_last(), fewer_tallies);
        assert(fewer_tallies.last() == tallies[k]);
    }
    lemma_entries_append(earlier, added);
}

} // verus!
