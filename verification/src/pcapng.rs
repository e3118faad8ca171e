//! Capture of every byte that crosses the shim, in the pcapng file format.
//!
//! The shim has no real packets, so this module fabricates Ethernet, IPv4 or
//! IPv6 and TCP or UDP framing for each flow, with a synthetic three-way
//! handshake and acknowledgements, so that a capture reads as a normal
//! conversation. A [`PcapWriter`] holds the bytes of the capture that are still
//! to be written to its file; [`PcapWriter::take_output`] hands them over.

use crate::addr::{mapped, IpAddr, Ipv4Addr, Ipv6Addr, SocketAddr};
use crate::bytes::{
    be_bytes, law_le_round_trip, le_bytes, le_value, lemma_be_len, lemma_le_len, push_all, push_be,
    push_le,
};
use crate::table::{Key, Table};
use crate::time::SystemTime;
use vstd::prelude::*;

verus! {

const BLOCK_SHB: u32 = 0x0A0D_0D0A;

const BLOCK_IDB: u32 = 0x0000_0001;

const BLOCK_EPB: u32 = 0x0000_0006;

const BYTE_ORDER_MAGIC: u32 = 0x1A2B_3C4D;

const ETHERTYPE_IPV4: u16 = 0x0800;

const ETHERTYPE_IPV6: u16 = 0x86dd;

pub const IP_PROTO_TCP: u8 = 6;

pub const IP_PROTO_UDP: u8 = 17;

pub const TCP_SYN: u8 = 0x02;

pub const TCP_SYN_ACK: u8 = 0x12;

pub const TCP_ACK: u8 = 0x10;

pub const TCP_PSH_ACK: u8 = 0x18;

pub const TCP_FIN_ACK: u8 = 0x11;

pub const TCP_RST: u8 = 0x04;

pub const TCP_RST_ACK: u8 = 0x14;

const SNAPLEN: u32 = 65535;

const LINKTYPE_ETHERNET: u16 = 1;

// ----- Checksums -----

/// The sum of `h`'s big-endian 16-bit words; an odd last byte is the high half
/// of a word.
pub open spec fn word_sum(h: Seq<u8>) -> nat
    decreases h.len(),
{
    if h.len() == 0 {
        0
    } else if h.len() == 1 {
        h[0] as nat * 256
    } else {
        h[0] as nat * 256 + h[1] as nat + word_sum(h.skip(2))
    }
}

/// Adds the carries of `s` back in until it fits in sixteen bits.
pub open spec fn folded(s: nat) -> nat
    decreases s,
{
    if s < 0x1_0000 {
        s
    } else {
        folded(s % 0x1_0000 + s / 0x1_0000)
    }
}

/// The Internet checksum of `h`. The words are summed modulo 2 to the 32nd,
/// which matters only past 128 KiB.
pub open spec fn checksum(h: Seq<u8>) -> u16 {
    (0xffff - folded(word_sum(h) % 0x1_0000_0000)) as u16
}

/// The Internet checksum of a header.
pub fn ipv4_checksum(h: &[u8]) -> (r: u16)
    ensures
        r == checksum(h@),
{
    let mut sum: u32 = 0;
    let mut i: usize = 0;
    assert(h@.skip(0) == h@);
    while i < h.len()
        invariant
            i <= h@.len(),
            (sum + word_sum(h@.skip(i as int))) % 0x1_0000_0000 == word_sum(h@) % 0x1_0000_0000,
        decreases h@.len() - i,
    {
        let ghost rest = h@.skip(i as int);
        let high: u32 = h[i] as u32 * 256;
        let word: u32 = if i + 1 < h.len() {
            high + h[i + 1] as u32
        } else {
            high
        };
        let ghost before = sum;
        sum = sum.wrapping_add(word);
        if h.len() - i >= 2 {
            proof {
                assert(rest.skip(2) == h@.skip(i + 2));
                assert(word_sum(rest) == word + word_sum(h@.skip(i + 2)));
            }
            i += 2;
        } else {
            proof {
                assert(word_sum(rest) == word);
                assert(h@.skip(i + 1) == Seq::<u8>::empty());
            }
            i += 1;
        }
        assert((sum + word_sum(h@.skip(i as int))) % 0x1_0000_0000 == (before + word_sum(rest))
            % 0x1_0000_0000);
    }
    assert(h@.skip(i as int) == Seq::<u8>::empty());
    let ghost total = sum as nat;
    while sum > 0xffff
        invariant
            folded(sum as nat) == folded(total),
        decreases sum,
    {
        sum = sum % 0x1_0000 + sum / 0x1_0000;
    }
    0xffff - sum as u16
}

/// Folding carries keeps the value modulo 65535 and never turns a positive sum
/// into zero.
proof fn lemma_folded(s: nat)
    ensures
        folded(s) < 0x1_0000,
        folded(s) % 0xffff == s % 0xffff,
        s > 0 ==> folded(s) > 0,
    decreases s,
{
    if s >= 0x1_0000 {
        lemma_folded(s % 0x1_0000 + s / 0x1_0000);
    }
}

proof fn lemma_word_sum_bound(h: Seq<u8>)
    ensures
        word_sum(h) <= 0xffff * ((h.len() + 1) / 2),
    decreases h.len(),
{
    if h.len() >= 2 {
        lemma_word_sum_bound(h.skip(2));
    }
}

/// Writing a word into a place that holds zero adds that word to the sum.
proof fn lemma_word_sum_patch(h: Seq<u8>, at: int, high: u8, low: u8)
    requires
        0 <= at,
        at % 2 == 0,
        at + 1 < h.len(),
        h[at] == 0,
        h[at + 1] == 0,
    ensures
        word_sum(h.update(at, high).update(at + 1, low)) == word_sum(h) + high * 256 + low,
    decreases h.len(),
{
    let g = h.update(at, high).update(at + 1, low);
    if at == 0 {
        assert(g.skip(2) == h.skip(2));
    } else {
        assert(g.skip(2) == h.skip(2).update(at - 2, high).update(at - 1, low));
        lemma_word_sum_patch(h.skip(2), at - 2, high, low);
    }
}

/// A header that carries its own checksum sums to zero.
pub proof fn law_checksum_verifies(h: Seq<u8>, at: int)
    requires
        0 <= at,
        at % 2 == 0,
        at + 1 < h.len(),
        h.len() <= 0x1_0000,
        h[at] == 0,
        h[at + 1] == 0,
    ensures
        checksum(
            h.update(at, (checksum(h) / 256) as u8).update(at + 1, (checksum(h) % 256) as u8),
        ) == 0,
{
    let ck = checksum(h);
    let high = (ck / 256) as u8;
    let low = (ck % 256) as u8;
    let g = h.update(at, high).update(at + 1, low);
    let s = word_sum(h);
    lemma_word_sum_bound(h);
    lemma_word_sum_patch(h, at, high, low);
    lemma_folded(s);
    assert(s % 0x1_0000_0000 == s);
    assert(word_sum(g) == s + ck);
    lemma_checksum_completes(s, word_sum(g));
}

/// A sum and its complement fold to all ones.
proof fn lemma_checksum_completes(s: nat, total: nat)
    requires
        s < 0x1_0000_0000 - 0x1_0000,
        total == s + (0xffff - folded(s)),
    ensures
        folded(s) < 0x1_0000,
        folded(total) == 0xffff,
{
    lemma_folded(s);
    lemma_folded(total);
}

// ----- Headers -----

/// The IPv4 header of a packet that carries `payload_len` bytes. Its checksum
/// is left zero, which a reader of the capture takes for checksum offload.
pub open spec fn ipv4_header(src: Ipv4Addr, dst: Ipv4Addr, proto: u8, payload_len: nat) -> Seq<u8> {
    seq![0x45u8, 0u8] + be_bytes(20 + payload_len, 2) + seq![
        0u8,
        0u8,
        0x40u8,
        0u8,
        64u8,
        proto,
        0u8,
        0u8,
    ] + be_bytes(src.bits as nat, 4) + be_bytes(dst.bits as nat, 4)
}

/// The IPv6 header of a packet that carries `payload_len` bytes.
pub open spec fn ipv6_header(src: Ipv6Addr, dst: Ipv6Addr, proto: u8, payload_len: nat) -> Seq<u8> {
    seq![0x60u8, 0u8, 0u8, 0u8] + be_bytes(payload_len, 2) + seq![proto, 64u8] + be_bytes(
        src.bits as nat,
        16,
    ) + be_bytes(dst.bits as nat, 16)
}

/// A TCP segment without options, its checksum left zero.
pub open spec fn tcp_segment(
    src_port: u16,
    dst_port: u16,
    seq: u32,
    ack: u32,
    flags: u8,
    payload: Seq<u8>,
) -> Seq<u8> {
    be_bytes(src_port as nat, 2) + be_bytes(dst_port as nat, 2) + be_bytes(seq as nat, 4)
        + be_bytes(ack as nat, 4) + seq![0x50u8, flags, 0xffu8, 0xffu8, 0u8, 0u8, 0u8, 0u8]
        + payload
}

/// A UDP datagram, its checksum left zero.
pub open spec fn udp_datagram(src_port: u16, dst_port: u16, payload: Seq<u8>) -> Seq<u8> {
    be_bytes(src_port as nat, 2) + be_bytes(dst_port as nat, 2) + be_bytes(8 + payload.len(), 2)
        + seq![0u8, 0u8] + payload
}

/// The 64-bit FNV-1 hash of `bytes`.
pub open spec fn fnv(bytes: Seq<u8>) -> u64
    decreases bytes.len(),
{
    if bytes.len() == 0 {
        0xcbf2_9ce4_8422_2325
    } else {
        fnv(bytes.drop_last()).wrapping_mul(0x100_0000_01b3) ^ (bytes.last() as u64)
    }
}

/// The MAC address of a socket: locally administered and hashed from the
/// socket's address.
pub open spec fn mac(addr: SocketAddr) -> Seq<u8> {
    let h = fnv(addr.ip_part().octets() + be_bytes(addr.port_part() as nat, 2));
    seq![0x02u8] + be_bytes(h as nat, 8).subrange(2, 7)
}

/// An IPv6 address as it is, an IPv4 address mapped into IPv6.
pub open spec fn as_ipv6(ip: IpAddr) -> Ipv6Addr {
    match ip {
        IpAddr::V4(v4) => mapped(v4),
        IpAddr::V6(v6) => v6,
    }
}

/// The type field and the IP header of a packet between two sockets. Where the
/// address families differ both addresses are written as IPv6.
pub open spec fn ip_layer(src: SocketAddr, dst: SocketAddr, proto: u8, payload_len: nat) -> Seq<
    u8,
> {
    match (src.ip_part(), dst.ip_part()) {
        (IpAddr::V4(s), IpAddr::V4(d)) => be_bytes(0x0800, 2) + ipv4_header(
            s,
            d,
            proto,
            payload_len,
        ),
        (s, d) => be_bytes(0x86dd, 2) + ipv6_header(as_ipv6(s), as_ipv6(d), proto, payload_len),
    }
}

/// The Ethernet frame that carries `l4` from `src` to `dst`.
pub open spec fn eth_frame(src: SocketAddr, dst: SocketAddr, proto: u8, l4: Seq<u8>) -> Seq<u8> {
    mac(dst) + mac(src) + ip_layer(src, dst, proto, l4.len()) + l4
}

pub fn build_ipv4_header(src: Ipv4Addr, dst: Ipv4Addr, proto: u8, payload_len: usize) -> (h: Vec<
    u8,
>)
    ensures
        h@ == ipv4_header(src, dst, proto, payload_len as nat),
{
    let mut h: Vec<u8> = Vec::new();
    h.push(0x45);
    h.push(0x00);
    push_be(&mut h, 20 + payload_len as u128, 2);
    h.push(0x00);
    h.push(0x00);
    h.push(0x40);
    h.push(0x00);
    h.push(64);
    h.push(proto);
    h.push(0x00);
    h.push(0x00);
    push_be(&mut h, src.bits as u128, 4);
    push_be(&mut h, dst.bits as u128, 4);
    assert(h@ =~= ipv4_header(src, dst, proto, payload_len as nat));
    h
}

pub fn build_ipv6_header(src: Ipv6Addr, dst: Ipv6Addr, proto: u8, payload_len: usize) -> (h: Vec<
    u8,
>)
    ensures
        h@ == ipv6_header(src, dst, proto, payload_len as nat),
{
    let mut h: Vec<u8> = Vec::new();
    h.push(0x60);
    h.push(0x00);
    h.push(0x00);
    h.push(0x00);
    push_be(&mut h, payload_len as u128, 2);
    h.push(proto);
    h.push(64);
    push_be(&mut h, src.bits, 16);
    push_be(&mut h, dst.bits, 16);
    assert(h@ =~= ipv6_header(src, dst, proto, payload_len as nat));
    h
}

pub fn build_tcp_segment(
    src_port: u16,
    dst_port: u16,
    seq: u32,
    ack: u32,
    flags: u8,
    payload: &[u8],
) -> (r: Vec<u8>)
    ensures
        r@ == tcp_segment(src_port, dst_port, seq, ack, flags, payload@),
{
    let mut out: Vec<u8> = Vec::new();
    push_be(&mut out, src_port as u128, 2);
    push_be(&mut out, dst_port as u128, 2);
    push_be(&mut out, seq as u128, 4);
    push_be(&mut out, ack as u128, 4);
    out.push(0x50);
    out.push(flags);
    out.push(0xff);
    out.push(0xff);
    out.push(0);
    out.push(0);
    out.push(0);
    out.push(0);
    push_all(&mut out, payload);
    assert(out@ =~= tcp_segment(src_port, dst_port, seq, ack, flags, payload@));
    out
}

pub fn build_udp_datagram(src_port: u16, dst_port: u16, payload: &[u8]) -> (r: Vec<u8>)
    ensures
        r@ == udp_datagram(src_port, dst_port, payload@),
{
    let len: u128 = 8 + payload.len() as u128;
    let mut out: Vec<u8> = Vec::new();
    push_be(&mut out, src_port as u128, 2);
    push_be(&mut out, dst_port as u128, 2);
    push_be(&mut out, len, 2);
    out.push(0);
    out.push(0);
    push_all(&mut out, payload);
    assert(out@ =~= udp_datagram(src_port, dst_port, payload@));
    out
}

/// The MAC address that stands for a socket.
pub fn mac_for(addr: SocketAddr) -> (r: Vec<u8>)
    ensures
        r@ == mac(addr),
{
    let mut fed: Vec<u8> = Vec::new();
    addr.ip().push_octets(&mut fed);
    push_be(&mut fed, addr.port() as u128, 2);
    assert(fed@ =~= addr.ip_part().octets() + be_bytes(addr.port_part() as nat, 2));
    let mut h: u64 = 0xcbf2_9ce4_8422_2325;
    let mut i: usize = 0;
    while i < fed.len()
        invariant
            i <= fed@.len(),
            h == fnv(fed@.take(i as int)),
        decreases fed@.len() - i,
    {
        h = h.wrapping_mul(0x100_0000_01b3) ^ (fed[i] as u64);
        i += 1;
        assert(fed@.take(i as int).drop_last() == fed@.take(i - 1));
    }
    assert(fed@.take(i as int) == fed@);
    let mut bs: Vec<u8> = Vec::new();
    push_be(&mut bs, h as u128, 8);
    proof {
        lemma_be_len(h as nat, 8);
    }
    let mut out: Vec<u8> = Vec::new();
    out.push(0x02);
    out.push(bs[2]);
    out.push(bs[3]);
    out.push(bs[4]);
    out.push(bs[5]);
    out.push(bs[6]);
    assert(bs@ =~= be_bytes(h as nat, 8));
    assert(out@ =~= mac(addr));
    out
}

fn to_ipv6(ip: IpAddr) -> (r: Ipv6Addr)
    ensures
        r == as_ipv6(ip),
{
    match ip {
        IpAddr::V4(v4) => v4.to_ipv6_mapped(),
        IpAddr::V6(v6) => v6,
    }
}

/// The Ethernet frame that carries `l4` from `src` to `dst`.
pub fn build_eth_ip(src: SocketAddr, dst: SocketAddr, proto: u8, l4: &[u8]) -> (r: Vec<u8>)
    ensures
        r@ == eth_frame(src, dst, proto, l4@),
{
    let mut out: Vec<u8> = mac_for(dst);
    let mut src_mac: Vec<u8> = mac_for(src);
    out.append(&mut src_mac);
    let mut ip_hdr: Vec<u8> = match (src.ip(), dst.ip()) {
        (IpAddr::V4(s), IpAddr::V4(d)) => {
            push_be(&mut out, ETHERTYPE_IPV4 as u128, 2);
            build_ipv4_header(s, d, proto, l4.len())
        },
        (s, d) => {
            push_be(&mut out, ETHERTYPE_IPV6 as u128, 2);
            build_ipv6_header(to_ipv6(s), to_ipv6(d), proto, l4.len())
        },
    };
    out.append(&mut ip_hdr);
    push_all(&mut out, l4);
    assert(out@ =~= eth_frame(src, dst, proto, l4@));
    out
}

// ----- Blocks -----

/// How many zero bytes bring `len` to a multiple of four.
pub open spec fn padding(len: nat) -> nat {
    ((4 - len % 4) % 4) as nat
}

/// The section header block and the interface description block that open a
/// capture.
pub open spec fn file_header() -> Seq<u8> {
    le_bytes(0x0A0D_0D0A, 4) + le_bytes(28, 4) + le_bytes(0x1A2B_3C4D, 4) + le_bytes(1, 2)
        + le_bytes(0, 2) + le_bytes(0xffff_ffff_ffff_ffff, 8) + le_bytes(28, 4) + le_bytes(1, 4)
        + le_bytes(20, 4) + le_bytes(1, 2) + le_bytes(0, 2) + le_bytes(65535, 4) + le_bytes(20, 4)
}

/// The packet block that holds `frame`, captured `micros` microseconds after
/// the Unix epoch.
pub open spec fn packet_block(frame: Seq<u8>, micros: nat) -> Seq<u8> {
    let total = 32 + frame.len() + padding(frame.len());
    le_bytes(6, 4) + le_bytes(total, 4) + le_bytes(0, 4) + le_bytes(micros / 0x1_0000_0000, 4)
        + le_bytes(micros, 4) + le_bytes(frame.len(), 4) + le_bytes(frame.len(), 4) + frame
        + Seq::new(padding(frame.len()), |i: int| 0u8) + le_bytes(total, 4)
}

// ----- Flows -----

/// A socket address as a flow is known by: without IPv6 flow label and zone.
#[derive(Clone, Copy, Debug, PartialEq, Eq, Structural, Hash)]
pub struct SocketAddrCanon {
    pub family: u8,
    pub ip: u128,
    pub port: u16,
}

/// The two ends of a flow, the smaller one first.
#[derive(Clone, Copy, Debug, PartialEq, Eq, Structural, Hash)]
pub struct FlowKey {
    pub a: SocketAddrCanon,
    pub b: SocketAddrCanon,
}

/// How far a flow has come: for each end the sequence number of its next byte
/// and whether it has sent its last.
#[derive(Clone, Copy, Debug, PartialEq, Eq, Structural)]
pub struct FlowState {
    pub seq_a: u32,
    pub seq_b: u32,
    pub handshake_done: bool,
    pub closed_a: bool,
    pub closed_b: bool,
}

pub open spec fn canon(a: SocketAddr) -> SocketAddrCanon {
    match a.ip_part() {
        IpAddr::V4(v) => SocketAddrCanon { family: 4, ip: v.bits as u128, port: a.port_part() },
        IpAddr::V6(v) => SocketAddrCanon { family: 6, ip: v.bits, port: a.port_part() },
    }
}

impl SocketAddrCanon {
    /// By family, then by address, then by port.
    pub open spec fn at_most(self, other: SocketAddrCanon) -> bool {
        if self.family != other.family {
            self.family < other.family
        } else if self.ip != other.ip {
            self.ip < other.ip
        } else {
            self.port <= other.port
        }
    }

    pub fn from(a: SocketAddr) -> (r: SocketAddrCanon)
        ensures
            r == canon(a),
    {
        match a.ip() {
            IpAddr::V4(v) => SocketAddrCanon { family: 4, ip: v.bits as u128, port: a.port() },
            IpAddr::V6(v) => SocketAddrCanon { family: 6, ip: v.bits, port: a.port() },
        }
    }
}

pub open spec fn flow_key(a: SocketAddr, b: SocketAddr) -> FlowKey {
    if canon(a).at_most(canon(b)) {
        FlowKey { a: canon(a), b: canon(b) }
    } else {
        FlowKey { a: canon(b), b: canon(a) }
    }
}

impl FlowKey {
    pub fn new(a: SocketAddr, b: SocketAddr) -> (r: FlowKey)
        ensures
            r == flow_key(a, b),
    {
        let ca = SocketAddrCanon::from(a);
        let cb = SocketAddrCanon::from(b);
        let in_order = if ca.family != cb.family {
            ca.family < cb.family
        } else if ca.ip != cb.ip {
            ca.ip < cb.ip
        } else {
            ca.port <= cb.port
        };
        if in_order {
            FlowKey { a: ca, b: cb }
        } else {
            FlowKey { a: cb, b: ca }
        }
    }

    pub fn src_is_a(&self, src: SocketAddr) -> (r: bool)
        ensures
            r == (canon(src) == self.a),
    {
        SocketAddrCanon::from(src) == self.a
    }
}

impl Key for FlowKey {
    fn same(&self, other: &FlowKey) -> bool {
        *self == *other
    }
}

impl FlowState {
    /// The sequence numbers of `src` and of the other end.
    pub open spec fn seqs(self, key: FlowKey, src: SocketAddr) -> (u32, u32) {
        if canon(src) == key.a {
            (self.seq_a, self.seq_b)
        } else {
            (self.seq_b, self.seq_a)
        }
    }

    /// Whether `src` has sent its last byte.
    pub open spec fn closed(self, key: FlowKey, src: SocketAddr) -> bool {
        if canon(src) == key.a {
            self.closed_a
        } else {
            self.closed_b
        }
    }

    /// The flow with other sequence numbers for `src` and for the other end.
    pub open spec fn with_seqs(
        self,
        key: FlowKey,
        src: SocketAddr,
        seq: u32,
        peer_seq: u32,
    ) -> FlowState {
        if canon(src) == key.a {
            FlowState { seq_a: seq, seq_b: peer_seq, ..self }
        } else {
            FlowState { seq_b: seq, seq_a: peer_seq, ..self }
        }
    }

    /// The flow after `src` has sent its last byte.
    pub open spec fn with_closed(self, key: FlowKey, src: SocketAddr) -> FlowState {
        if canon(src) == key.a {
            FlowState { closed_a: true, ..self }
        } else {
            FlowState { closed_b: true, ..self }
        }
    }

    fn both_seqs(&self, key: &FlowKey, src: SocketAddr) -> (r: (u32, u32))
        ensures
            r == self.seqs(*key, src),
    {
        if key.src_is_a(src) {
            (self.seq_a, self.seq_b)
        } else {
            (self.seq_b, self.seq_a)
        }
    }

    fn set_seqs(&mut self, key: &FlowKey, src: SocketAddr, seq: u32, peer_seq: u32)
        ensures
            *final(self) == old(self).with_seqs(*key, src, seq, peer_seq),
    {
        if key.src_is_a(src) {
            self.seq_a = seq;
            self.seq_b = peer_seq;
        } else {
            self.seq_b = seq;
            self.seq_a = peer_seq;
        }
    }
}

// ----- The writer -----

/// What a capture has come to: every byte of its file, how many of them have
/// been handed over for writing, its flows and the next initial sequence
/// number.
pub struct PcapView {
    pub written: Seq<u8>,
    pub handed: nat,
    pub flows: Map<FlowKey, FlowState>,
    pub next_isn: u32,
}

impl PcapView {
    /// A capture without packets.
    pub open spec fn fresh() -> PcapView {
        PcapView { written: file_header(), handed: 0, flows: Map::empty(), next_isn: 1000 }
    }

    pub open spec fn with_packet(self, frame: Seq<u8>, micros: nat) -> PcapView {
        PcapView { written: self.written + packet_block(frame, micros), ..self }
    }

    #[verifier::opaque]
    pub open spec fn with_segment(
        self,
        src: SocketAddr,
        dst: SocketAddr,
        seq: u32,
        ack: u32,
        flags: u8,
        payload: Seq<u8>,
        micros: nat,
    ) -> PcapView {
        let segment = tcp_segment(src.port_part(), dst.port_part(), seq, ack, flags, payload);
        self.with_packet(eth_frame(src, dst, IP_PROTO_TCP, segment), micros)
    }

    pub open spec fn with_flow(self, key: FlowKey, f: FlowState) -> PcapView {
        PcapView { flows: self.flows.insert(key, f), ..self }
    }

    /// The flow between two sockets exists.
    pub open spec fn touched(self, src: SocketAddr, dst: SocketAddr) -> PcapView {
        let key = flow_key(src, dst);
        if self.flows.dom().contains(key) {
            self
        } else {
            PcapView {
                flows: self.flows.insert(
                    key,
                    FlowState {
                        seq_a: self.next_isn,
                        seq_b: self.next_isn.wrapping_add(10_000),
                        handshake_done: false,
                        closed_a: false,
                        closed_b: false,
                    },
                ),
                next_isn: self.next_isn.wrapping_add(10_000).wrapping_add(10_000),
                ..self
            }
        }
    }

    /// The connection has been opened by a three-way handshake, once.
    pub open spec fn opened(self, client: SocketAddr, server: SocketAddr, micros: nat) -> PcapView {
        let t = self.touched(client, server);
        let key = flow_key(client, server);
        let f = t.flows[key];
        if f.handshake_done {
            t
        } else {
            let (c, s) = f.seqs(key, client);
            let c1 = c.wrapping_add(1);
            let s1 = s.wrapping_add(1);
            t.with_segment(client, server, c, 0, TCP_SYN, Seq::empty(), micros).with_segment(
                server,
                client,
                s,
                c1,
                TCP_SYN_ACK,
                Seq::empty(),
                micros,
            ).with_segment(client, server, c1, s1, TCP_ACK, Seq::empty(), micros).with_flow(
                key,
                FlowState { handshake_done: true, ..f.with_seqs(key, client, c1, s1) },
            )
        }
    }

    /// `src` has sent `payload` and the other end has acknowledged it.
    pub open spec fn with_data(
        self,
        src: SocketAddr,
        dst: SocketAddr,
        payload: Seq<u8>,
        micros: nat,
    ) -> PcapView {
        if payload.len() == 0 {
            self
        } else {
            let o = self.opened(src, dst, micros);
            let key = flow_key(src, dst);
            let f = o.flows[key];
            let (s, p) = f.seqs(key, src);
            let s1 = s.wrapping_add((payload.len() % 0x1_0000_0000) as u32);
            o.with_segment(src, dst, s, p, TCP_PSH_ACK, payload, micros).with_segment(
                dst,
                src,
                p,
                s1,
                TCP_ACK,
                Seq::empty(),
                micros,
            ).with_flow(key, f.with_seqs(key, src, s1, p))
        }
    }

    /// `src` has closed its side, once, of a flow that exists.
    pub open spec fn with_fin(self, src: SocketAddr, dst: SocketAddr, micros: nat) -> PcapView {
        let key = flow_key(src, dst);
        let f = self.flows[key];
        if !self.flows.dom().contains(key) || f.closed(key, src) {
            self
        } else {
            let (s, p) = f.seqs(key, src);
            let s1 = s.wrapping_add(1);
            self.with_segment(src, dst, s, p, TCP_FIN_ACK, Seq::empty(), micros).with_segment(
                dst,
                src,
                p,
                s1,
                TCP_ACK,
                Seq::empty(),
                micros,
            ).with_flow(key, f.with_seqs(key, src, s1, p).with_closed(key, src))
        }
    }

    /// `src` has reset the connection.
    pub open spec fn with_rst(self, src: SocketAddr, dst: SocketAddr, micros: nat) -> PcapView {
        let key = flow_key(src, dst);
        let (s, p) = if self.flows.dom().contains(key) {
            self.flows[key].seqs(key, src)
        } else {
            (0u32, 0u32)
        };
        let flags = if p == 0 {
            TCP_RST
        } else {
            TCP_RST_ACK
        };
        self.with_segment(src, dst, s, p, flags, Seq::empty(), micros)
    }

    /// `src` has sent a datagram.
    #[verifier::opaque]
    pub open spec fn with_datagram(
        self,
        src: SocketAddr,
        dst: SocketAddr,
        payload: Seq<u8>,
        micros: nat,
    ) -> PcapView {
        let datagram = udp_datagram(src.port_part(), dst.port_part(), payload);
        self.with_packet(eth_frame(src, dst, IP_PROTO_UDP, datagram), micros)
    }
}

/// Builds a capture.
pub struct PcapWriter {
    out: Vec<u8>,
    handed_over: Ghost<Seq<u8>>,
    flows: Table<FlowKey, FlowState>,
    next_isn: u32,
}

impl PcapWriter {
    pub closed spec fn view(&self) -> PcapView {
        PcapView {
            written: self.handed_over@ + self.out@,
            handed: self.handed_over@.len(),
            flows: self.flows@,
            next_isn: self.next_isn,
        }
    }

    /// A capture without packets.
    pub fn create() -> (r: PcapWriter)
        ensures
            r@ == PcapView::fresh(),
    {
        let mut w = PcapWriter {
            out: Vec::new(),
            handed_over: Ghost(Seq::empty()),
            flows: Table::new(),
            next_isn: 1000,
        };
        w.write_shb();
        w.write_idb();
        assert(w@.written =~= file_header());
        w
    }

    fn write_shb(&mut self)
        ensures
            final(self).out@ == old(self).out@ + (le_bytes(0x0A0D_0D0A, 4) + le_bytes(28, 4)
                + le_bytes(0x1A2B_3C4D, 4) + le_bytes(1, 2) + le_bytes(0, 2) + le_bytes(
                0xffff_ffff_ffff_ffff,
                8,
            ) + le_bytes(28, 4)),
            final(self).handed_over == old(self).handed_over,
            final(self).flows == old(self).flows,
            final(self).next_isn == old(self).next_isn,
    {
        push_le(&mut self.out, BLOCK_SHB as u128, 4);
        push_le(&mut self.out, 28, 4);
        push_le(&mut self.out, BYTE_ORDER_MAGIC as u128, 4);
        push_le(&mut self.out, 1, 2);
        push_le(&mut self.out, 0, 2);
        push_le(&mut self.out, 0xffff_ffff_ffff_ffff, 8);
        push_le(&mut self.out, 28, 4);
    }

    fn write_idb(&mut self)
        ensures
            final(self).out@ == old(self).out@ + (le_bytes(1, 4) + le_bytes(20, 4) + le_bytes(1, 2)
                + le_bytes(0, 2) + le_bytes(65535, 4) + le_bytes(20, 4)),
            final(self).handed_over == old(self).handed_over,
            final(self).flows == old(self).flows,
            final(self).next_isn == old(self).next_isn,
    {
        push_le(&mut self.out, BLOCK_IDB as u128, 4);
        push_le(&mut self.out, 20, 4);
        push_le(&mut self.out, LINKTYPE_ETHERNET as u128, 2);
        push_le(&mut self.out, 0, 2);
        push_le(&mut self.out, SNAPLEN as u128, 4);
        push_le(&mut self.out, 20, 4);
    }

    fn write_epb(&mut self, frame: &[u8], at: SystemTime)
        ensures
            final(self)@ == old(self)@.with_packet(frame@, at@ / 1_000),
    {
        let micros: u128 = at.since_unix_epoch().as_micros();
        let cap_len: u128 = frame.len() as u128;
        let pad: u128 = (4 - cap_len % 4) % 4;
        let total: u128 = 32 + cap_len + pad;
        let mut block: Vec<u8> = Vec::new();
        push_le(&mut block, BLOCK_EPB as u128, 4);
        push_le(&mut block, total, 4);
        push_le(&mut block, 0, 4);
        push_le(&mut block, micros / 0x1_0000_0000, 4);
        push_le(&mut block, micros, 4);
        push_le(&mut block, cap_len, 4);
        push_le(&mut block, cap_len, 4);
        push_all(&mut block, frame);
        let ghost before_padding = block@;
        let mut i: u128 = 0;
        while i < pad
            invariant
                i <= pad,
                block@ == before_padding + Seq::new(i as nat, |i: int| 0u8),
            decreases pad - i,
        {
            block.push(0);
            i += 1;
            assert(block@ =~= before_padding + Seq::new(i as nat, |i: int| 0u8));
        }
        push_le(&mut block, total, 4);
        assert(block@ =~= packet_block(frame@, micros as nat));
        self.out.append(&mut block);
        assert(self@.written =~= old(self)@.written + packet_block(frame@, micros as nat));
    }

    /// The bytes of the capture that have not been handed over yet.
    pub fn take_output(&mut self) -> (r: Vec<u8>)
        ensures
            r@ == old(self)@.written.skip(old(self)@.handed as int),
            final(self)@ == (PcapView { handed: old(self)@.written.len(), ..old(self)@ }),
    {
        let mut taken: Vec<u8> = Vec::new();
        std::mem::swap(&mut taken, &mut self.out);
        self.handed_over = Ghost(self.handed_over@ + taken@);
        assert(self@.written =~= old(self)@.written);
        assert(taken@ =~= old(self)@.written.skip(old(self)@.handed as int));
        taken
    }

    fn alloc_isn(&mut self) -> (r: u32)
        ensures
            r == old(self).next_isn,
            final(self)@ == (PcapView { next_isn: r.wrapping_add(10_000), ..old(self)@ }),
    {
        let isn: u32 = self.next_isn;
        self.next_isn = isn.wrapping_add(10_000);
        isn
    }

    /// Makes sure that a flow exists; hands it out.
    fn touch_flow(&mut self, src: SocketAddr, dst: SocketAddr) -> (r: FlowState)
        ensures
            final(self)@ == old(self)@.touched(src, dst),
            r == final(self)@.flows[flow_key(src, dst)],
    {
        let key = FlowKey::new(src, dst);
        match self.flows.get(&key) {
            Some(f) => f,
            None => {
                let seq_a: u32 = self.alloc_isn();
                let seq_b: u32 = self.alloc_isn();
                let f = FlowState {
                    seq_a,
                    seq_b,
                    handshake_done: false,
                    closed_a: false,
                    closed_b: false,
                };
                self.flows.insert(key, f);
                f
            },
        }
    }

    /// Opens a TCP connection with a synthetic three-way handshake. `client`
    /// is the side that initiated the connect.
    pub fn tcp_open(&mut self, client: SocketAddr, server: SocketAddr, at: SystemTime)
        ensures
            final(self)@ == old(self)@.opened(client, server, at@ / 1_000),
    {
        let mut f = self.touch_flow(client, server);
        if f.handshake_done {
            return ;
        }
        let key = FlowKey::new(client, server);
        let (client_seq, server_seq) = f.both_seqs(&key, client);
        let new_client: u32 = client_seq.wrapping_add(1);
        let new_server: u32 = server_seq.wrapping_add(1);
        self.emit_bare(client, server, client_seq, 0, TCP_SYN, at);
        self.emit_bare(server, client, server_seq, new_client, TCP_SYN_ACK, at);
        self.emit_bare(client, server, new_client, new_server, TCP_ACK, at);
        f.set_seqs(&key, client, new_client, new_server);
        f.handshake_done = true;
        self.flows.insert(key, f);
    }

    /// Records that `src` sent `payload`. Where the connect was missed, `src`
    /// is taken for the side that initiated it.
    pub fn tcp_data(&mut self, src: SocketAddr, dst: SocketAddr, payload: &[u8], at: SystemTime)
        ensures
            final(self)@ == old(self)@.with_data(src, dst, payload@, at@ / 1_000),
    {
        if payload.len() == 0 {
            return ;
        }
        self.tcp_open(src, dst, at);
        let key = FlowKey::new(src, dst);
        let mut f = self.touch_flow(src, dst);
        let (src_seq, peer_ack) = f.both_seqs(&key, src);
        let sent: u32 = (payload.len() as u64 % 0x1_0000_0000) as u32;
        let new_src_seq: u32 = src_seq.wrapping_add(sent);
        self.emit_tcp(src, dst, src_seq, peer_ack, TCP_PSH_ACK, payload, at);
        self.emit_bare(dst, src, peer_ack, new_src_seq, TCP_ACK, at);
        f.set_seqs(&key, src, new_src_seq, peer_ack);
        self.flows.insert(key, f);
    }

    /// Records that `src` closed its side of the connection.
    pub fn tcp_fin(&mut self, src: SocketAddr, dst: SocketAddr, at: SystemTime)
        ensures
            final(self)@ == old(self)@.with_fin(src, dst, at@ / 1_000),
    {
        let key = FlowKey::new(src, dst);
        let src_is_a = key.src_is_a(src);
        match self.flows.get(&key) {
            None => {},
            Some(found) => {
                let mut f = found;
                let already_closed = if src_is_a {
                    f.closed_a
                } else {
                    f.closed_b
                };
                if already_closed {
                    return ;
                }
                let (src_seq, peer_ack) = f.both_seqs(&key, src);
                let new_src_seq: u32 = src_seq.wrapping_add(1);
                self.emit_bare(src, dst, src_seq, peer_ack, TCP_FIN_ACK, at);
                self.emit_bare(dst, src, peer_ack, new_src_seq, TCP_ACK, at);
                f.set_seqs(&key, src, new_src_seq, peer_ack);
                if src_is_a {
                    f.closed_a = true;
                } else {
                    f.closed_b = true;
                }
                self.flows.insert(key, f);
            },
        }
    }

    /// Records that `src` reset the connection.
    pub fn tcp_rst(&mut self, src: SocketAddr, dst: SocketAddr, at: SystemTime)
        ensures
            final(self)@ == old(self)@.with_rst(src, dst, at@ / 1_000),
    {
        let key = FlowKey::new(src, dst);
        let (src_seq, peer_ack) = match self.flows.get(&key) {
            Some(f) => f.both_seqs(&key, src),
            None => (0, 0),
        };
        let flags: u8 = if peer_ack == 0 {
            TCP_RST
        } else {
            TCP_RST_ACK
        };
        self.emit_bare(src, dst, src_seq, peer_ack, flags, at);
    }

    /// Records that `src` sent a datagram.
    pub fn udp_datagram(&mut self, src: SocketAddr, dst: SocketAddr, payload: &[u8], at: SystemTime)
        ensures
            final(self)@ == old(self)@.with_datagram(src, dst, payload@, at@ / 1_000),
    {
        reveal(PcapView::with_datagram);
        let datagram = build_udp_datagram(src.port(), dst.port(), payload);
        let frame = build_eth_ip(src, dst, IP_PROTO_UDP, datagram.as_slice());
        self.write_epb(frame.as_slice(), at);
    }

    /// Emits a segment without payload.
    fn emit_bare(
        &mut self,
        src: SocketAddr,
        dst: SocketAddr,
        seq: u32,
        ack: u32,
        flags: u8,
        at: SystemTime,
    )
        ensures
            final(self)@ == old(self)@.with_segment(
                src,
                dst,
                seq,
                ack,
                flags,
                Seq::empty(),
                at@ / 1_000,
            ),
    {
        let nothing: Vec<u8> = Vec::new();
        self.emit_tcp(src, dst, seq, ack, flags, nothing.as_slice(), at);
    }

    fn emit_tcp(
        &mut self,
        src: SocketAddr,
        dst: SocketAddr,
        seq: u32,
        ack: u32,
        flags: u8,
        payload: &[u8],
        at: SystemTime,
    )
        ensures
            final(self)@ == old(self)@.with_segment(
                src,
                dst,
                seq,
                ack,
                flags,
                payload@,
                at@ / 1_000,
            ),
    {
        reveal(PcapView::with_segment);
        let segment = build_tcp_segment(src.port(), dst.port(), seq, ack, flags, payload);
        let frame = build_eth_ip(src, dst, IP_PROTO_TCP, segment.as_slice());
        self.write_epb(frame.as_slice(), at);
    }
}

// ----- What a capture promises -----

/// A flow is the same seen from either end.
pub proof fn law_flow_key_is_symmetric(a: SocketAddr, b: SocketAddr)
    ensures
        flow_key(a, b) == flow_key(b, a),
{
}

/// Opening a connection that is open, from whichever end, changes nothing.
pub proof fn law_open_is_idempotent(
    w: PcapView,
    client: SocketAddr,
    server: SocketAddr,
    micros: nat,
    later: nat,
)
    ensures
        w.opened(client, server, micros).opened(client, server, later) == w.opened(
            client,
            server,
            micros,
        ),
        w.opened(client, server, micros).opened(server, client, later) == w.opened(
            client,
            server,
            micros,
        ),
{
    law_flow_key_is_symmetric(client, server);
}

/// Each end of a connection closes once: a second close changes nothing.
pub proof fn law_fin_is_idempotent(
    w: PcapView,
    src: SocketAddr,
    dst: SocketAddr,
    micros: nat,
    later: nat,
)
    ensures
        w.with_fin(src, dst, micros).with_fin(src, dst, later) == w.with_fin(src, dst, micros),
{
}

/// Data moves its sender's sequence number by its length, and the other end's
/// not at all.
pub proof fn law_data_advances_sequence(
    w: PcapView,
    src: SocketAddr,
    dst: SocketAddr,
    payload: Seq<u8>,
    micros: nat,
)
    requires
        payload.len() > 0,
        canon(src) != canon(dst),
    ensures
        ({
            let key = flow_key(src, dst);
            let o = w.opened(src, dst, micros).flows[key];
            let d = w.with_data(src, dst, payload, micros).flows[key];
            &&& d.seqs(key, src).0 == o.seqs(key, src).0.wrapping_add(
                (payload.len() % 0x1_0000_0000) as u32,
            )
            &&& d.seqs(key, src).1 == o.seqs(key, src).1
            &&& d.handshake_done
        }),
{
}

/// A run of whole packet blocks: each is typed as one, states its length at
/// both ends, and has a length that is a multiple of four.
pub open spec fn packet_blocks(bytes: Seq<u8>) -> bool
    decreases bytes.len(),
{
    bytes.len() == 0 || {
        let total = le_value(bytes.subrange(4, 8));
        &&& 32 <= total <= bytes.len()
        &&& total % 4 == 0
        &&& le_value(bytes.subrange(0, 4)) == 6
        &&& le_value(bytes.subrange(total - 4, total as int)) == total
        &&& packet_blocks(bytes.skip(total as int))
    }
}

/// A file that a reader of the pcapng format accepts: the two opening blocks
/// and then packet blocks.
pub open spec fn is_capture(bytes: Seq<u8>) -> bool {
    &&& bytes.len() >= 48
    &&& bytes.take(48) == file_header()
    &&& packet_blocks(bytes.skip(48))
}

proof fn lemma_le4(v: nat)
    requires
        v < 0x1_0000_0000,
    ensures
        le_value(le_bytes(v, 4)) == v,
        le_bytes(v, 4).len() == 4,
{
    assert(vstd::arithmetic::power::pow(256, 4) == 0x1_0000_0000) by {
        reveal_with_fuel(vstd::arithmetic::power::pow, 5);
    }
    law_le_round_trip(v, 4);
    lemma_le_len(v, 4);
}

proof fn lemma_packet_block(frame: Seq<u8>, micros: nat)
    requires
        frame.len() < 0xffff_0000,
    ensures
        packet_blocks(packet_block(frame, micros)),
        packet_block(frame, micros).len() == 32 + frame.len() + padding(frame.len()),
{
    let total = 32 + frame.len() + padding(frame.len());
    let b = packet_block(frame, micros);
    lemma_le4(6);
    lemma_le4(total);
    lemma_le_len(0, 4);
    lemma_le_len(micros / 0x1_0000_0000, 4);
    lemma_le_len(micros, 4);
    lemma_le_len(frame.len(), 4);
    assert(b.len() == total);
    assert(b.subrange(0, 4) =~= le_bytes(6, 4));
    assert(b.subrange(4, 8) =~= le_bytes(total, 4));
    assert(b.subrange(total - 4, total as int) =~= le_bytes(total, 4));
    assert(b.skip(total as int) =~= Seq::<u8>::empty());
    assert(packet_blocks(b.skip(total as int)));
    assert(total % 4 == 0);
}

proof fn lemma_packet_blocks_append(bytes: Seq<u8>, more: Seq<u8>)
    requires
        packet_blocks(bytes),
        packet_blocks(more),
    ensures
        packet_blocks(bytes + more),
    decreases bytes.len(),
{
    if bytes.len() == 0 {
        assert(bytes + more =~= more);
    } else {
        let total = le_value(bytes.subrange(4, 8));
        let all = bytes + more;
        lemma_packet_blocks_append(bytes.skip(total as int), more);
        assert(all.subrange(4, 8) =~= bytes.subrange(4, 8));
        assert(all.subrange(0, 4) =~= bytes.subrange(0, 4));
        assert(all.subrange(total - 4, total as int) =~= bytes.subrange(
            total - 4,
            total as int,
        ));
        assert(all.skip(total as int) =~= bytes.skip(total as int) + more);
    }
}

proof fn lemma_file_header_len()
    ensures
        file_header().len() == 48,
{
    lemma_le_len(0x0A0D_0D0A, 4);
    lemma_le_len(28, 4);
    lemma_le_len(0x1A2B_3C4D, 4);
    lemma_le_len(1, 2);
    lemma_le_len(0, 2);
    lemma_le_len(0xffff_ffff_ffff_ffff, 8);
    lemma_le_len(1, 4);
    lemma_le_len(20, 4);
    lemma_le_len(65535, 4);
}

/// A new capture is a valid file.
pub proof fn law_fresh_capture_is_valid()
    ensures
        is_capture(PcapView::fresh().written),
{
    lemma_file_header_len();
    assert(file_header().take(48) =~= file_header());
    assert(file_header().skip(48) =~= Seq::<u8>::empty());
}

/// A packet leaves a valid capture valid.
pub proof fn law_packet_keeps_capture_valid(w: PcapView, frame: Seq<u8>, micros: nat)
    requires
        is_capture(w.written),
        frame.len() < 0xffff_0000,
    ensures
        is_capture(w.with_packet(frame, micros).written),
{
    let block = packet_block(frame, micros);
    lemma_packet_block(frame, micros);
    lemma_packet_blocks_append(w.written.skip(48), block);
    assert((w.written + block).take(48) =~= w.written.take(48));
    assert((w.written + block).skip(48) =~= w.written.skip(48) + block);
}

proof fn lemma_frame_len(src: SocketAddr, dst: SocketAddr, proto: u8, l4: Seq<u8>)
    ensures
        eth_frame(src, dst, proto, l4).len() <= 54 + l4.len(),
{
    let len = l4.len();
    assert forall|a: SocketAddr| #[trigger] mac(a).len() == 6 by {
        lemma_be_len(fnv(a.ip_part().octets() + be_bytes(a.port_part() as nat, 2)) as nat, 8);
    }
    lemma_be_len(20 + len, 2);
    lemma_be_len(len, 2);
    lemma_be_len(0x0800, 2);
    lemma_be_len(0x86dd, 2);
    assert forall|v: nat| #[trigger] be_bytes(v, 4).len() == 4 by {
        lemma_be_len(v, 4);
    }
    assert forall|v: nat| #[trigger] be_bytes(v, 16).len() == 16 by {
        lemma_be_len(v, 16);
    }
}

proof fn lemma_segment_keeps_capture_valid(
    w: PcapView,
    src: SocketAddr,
    dst: SocketAddr,
    seq: u32,
    ack: u32,
    flags: u8,
    payload: Seq<u8>,
    micros: nat,
)
    requires
        is_capture(w.written),
        payload.len() <= 0xfffe_0000,
    ensures
        is_capture(w.with_segment(src, dst, seq, ack, flags, payload, micros).written),
{
    reveal(PcapView::with_segment);
    let segment = tcp_segment(src.port_part(), dst.port_part(), seq, ack, flags, payload);
    lemma_be_len(src.port_part() as nat, 2);
    lemma_be_len(dst.port_part() as nat, 2);
    lemma_be_len(seq as nat, 4);
    lemma_be_len(ack as nat, 4);
    lemma_frame_len(src, dst, IP_PROTO_TCP, segment);
    law_packet_keeps_capture_valid(w, eth_frame(src, dst, IP_PROTO_TCP, segment), micros);
}

/// Whatever is recorded, a valid capture stays one, as long as no single
/// payload is so long that its block cannot state its length.
pub proof fn law_capture_stays_valid(
    w: PcapView,
    src: SocketAddr,
    dst: SocketAddr,
    payload: Seq<u8>,
    micros: nat,
)
    requires
        is_capture(w.written),
        payload.len() <= 0xfffe_0000,
    ensures
        is_capture(w.opened(src, dst, micros).written),
        is_capture(w.with_data(src, dst, payload, micros).written),
        is_capture(w.with_fin(src, dst, micros).written),
        is_capture(w.with_rst(src, dst, micros).written),
        is_capture(w.with_datagram(src, dst, payload, micros).written),
{
    assert forall|v: PcapView, a: SocketAddr, b: SocketAddr, seq: u32, ack: u32, flags: u8|
        is_capture(v.written) implies is_capture(
        (#[trigger] v.with_segment(a, b, seq, ack, flags, Seq::empty(), micros)).written,
    ) by {
        lemma_segment_keeps_capture_valid(v, a, b, seq, ack, flags, Seq::empty(), micros);
    }
    assert forall|v: PcapView, a: SocketAddr, b: SocketAddr, seq: u32, ack: u32, flags: u8|
        is_capture(v.written) implies is_capture(
        (#[trigger] v.with_segment(a, b, seq, ack, flags, payload, micros)).written,
    ) by {
        lemma_segment_keeps_capture_valid(v, a, b, seq, ack, flags, payload, micros);
    }
    reveal(PcapView::with_datagram);
    let datagram = udp_datagram(src.port_part(), dst.port_part(), payload);
    lemma_be_len(src.port_part() as nat, 2);
    lemma_be_len(dst.port_part() as nat, 2);
    lemma_be_len(8 + payload.len(), 2);
    lemma_frame_len(src, dst, IP_PROTO_UDP, datagram);
    law_packet_keeps_capture_valid(w, eth_frame(src, dst, IP_PROTO_UDP, datagram), micros);
}

// ----- Names -----

/// Appends `c` to `s`. The standard library's `String::push` is documented to
/// append the character to the end of the string.
pub assume_specification[ String::push ](s: &mut String, c: char)
    ensures
        final(s)@ == old(s)@.push(c),
;

/// The character that stands for `c` in a file name.
pub open spec fn file_char(c: char) -> char {
    if ('a' <= c && c <= 'z') || ('A' <= c && c <= 'Z') || ('0' <= c && c <= '9') || c == '-' || c
        == '_' || c == '.' {
        c
    } else if c == ':' {
        '-'
    } else {
        '_'
    }
}

/// A test's name made fit for a file name.
pub fn sanitize_name(s: &str) -> (r: String)
    ensures
        r@ == s@.map_values(|c: char| file_char(c)),
{
    let mut out: String = String::new();
    for c in it: s.chars()
        invariant
            it.seq() == s@,
            out@ == s@.take(it.index() as int).map_values(|c: char| file_char(c)),
    {
        let kept: char = if ('a' <= c && c <= 'z') || ('A' <= c && c <= 'Z') || ('0' <= c && c
            <= '9') || c == '-' || c == '_' || c == '.' {
            c
        } else if c == ':' {
            '-'
        } else {
            '_'
        };
        out.push(kept);
        assert(s@.take(it.index() + 1).map_values(|c: char| file_char(c)) =~= s@.take(
            it.index() as int,
        ).map_values(|c: char| file_char(c)).push(file_char(c)));
    }
    assert(s@.take(s@.len() as int) =~= s@);
    out
}

/// The name of the file that holds a test's capture.
pub open spec fn capture_name(test_name: Seq<char>) -> Seq<char> {
    test_name.map_values(|c: char| file_char(c)) + ".pcapng"@
}

/// The name of the file that holds a test's capture.
pub fn capture_file_name(test_name: &str) -> (r: String)
    ensures
        r@ == capture_name(test_name@),
{
    let mut out: String = sanitize_name(test_name);
    out.append(".pcapng");
    out
}

/// Unicode white space.
pub open spec fn white(c: char) -> bool {
    ||| ('\u{9}' <= c && c <= '\u{d}')
    ||| c == ' '
    ||| c == '\u{85}'
    ||| c == '\u{a0}'
    ||| c == '\u{1680}'
    ||| ('\u{2000}' <= c && c <= '\u{200a}')
    ||| c == '\u{2028}'
    ||| c == '\u{2029}'
    ||| c == '\u{202f}'
    ||| c == '\u{205f}'
    ||| c == '\u{3000}'
}

fn is_white(c: char) -> (r: bool)
    ensures
        r == white(c),
{
    ('\u{9}' <= c && c <= '\u{d}') || c == ' ' || c == '\u{85}' || c == '\u{a0}' || c == '\u{1680}'
        || ('\u{2000}' <= c && c <= '\u{200a}') || c == '\u{2028}' || c == '\u{2029}' || c
        == '\u{202f}' || c == '\u{205f}' || c == '\u{3000}'
}

/// `name` is what `list[from..to]` holds between white space.
pub open spec fn trims_to(list: Seq<char>, from: int, to: int, name: Seq<char>) -> bool {
    exists|a: int|
        {
            &&& from <= a
            &&& a + name.len() <= to
            &&& #[trigger] list.subrange(a, a + name.len()) == name
            &&& forall|k: int| from <= k < a ==> white(#[trigger] list[k])
            &&& forall|k: int| a + name.len() <= k < to ==> white(#[trigger] list[k])
            &&& name.len() > 0
            &&& !white(name[0])
            &&& !white(name.last())
        }
}

/// `list[from..to]` stands between commas.
pub open spec fn between_commas(list: Seq<char>, from: int, to: int) -> bool {
    &&& 0 <= from <= to <= list.len()
    &&& from == 0 || list[from - 1] == ','
    &&& to == list.len() || list[to] == ','
    &&& forall|k: int| from <= k < to ==> #[trigger] list[k] != ','
}

/// The comma-separated list names the test; white space around a name does not
/// count.
pub open spec fn names(list: Seq<char>, name: Seq<char>) -> bool {
    exists|from: int, to: int| #[trigger]
        between_commas(list, from, to) && trims_to(list, from, to, name)
}

fn chars_of(s: &str) -> (r: Vec<char>)
    ensures
        r@ == s@,
{
    let mut out: Vec<char> = Vec::new();
    for c in it: s.chars()
        invariant
            it.seq() == s@,
            out@ == s@.take(it.index() as int),
    {
        out.push(c);
        assert(s@.take(it.index() + 1) =~= s@.take(it.index() as int).push(c));
    }
    assert(s@.take(s@.len() as int) =~= s@);
    out
}

/// Whether `list[from..to]` is `name` between white space.
fn piece_is(list: &Vec<char>, from: usize, to: usize, name: &Vec<char>) -> (r: bool)
    requires
        from <= to <= list@.len(),
    ensures
        r == trims_to(list@, from as int, to as int, name@),
{
    let mut a: usize = from;
    while a < to && is_white(list[a])
        invariant
            from <= a <= to <= list@.len(),
            forall|k: int| from <= k < a ==> white(#[trigger] list@[k]),
        decreases to - a,
    {
        a += 1;
    }
    let mut b: usize = to;
    while a < b && is_white(list[b - 1])
        invariant
            from <= a <= b <= to <= list@.len(),
            forall|k: int| b <= k < to ==> white(#[trigger] list@[k]),
        decreases b - a,
    {
        b -= 1;
    }
    let ghost l = list@;
    let ghost n = name@;
    if a == b {
        proof {
            if trims_to(l, from as int, to as int, n) {
                let p = choose|p: int|
                    {
                        &&& from <= p
                        &&& p + n.len() <= to
                        &&& #[trigger] l.subrange(p, p + n.len()) == n
                        &&& forall|k: int| from <= k < p ==> white(#[trigger] l[k])
                        &&& forall|k: int| p + n.len() <= k < to ==> white(#[trigger] l[k])
                        &&& n.len() > 0
                        &&& !white(n[0])
                        &&& !white(n.last())
                    };
                assert(l.subrange(p, p + n.len())[0] == l[p]);
            }
        }
        return false;
    }
    proof {
        if trims_to(l, from as int, to as int, n) {
            let p = choose|p: int|
                {
                    &&& from <= p
                    &&& p + n.len() <= to
                    &&& #[trigger] l.subrange(p, p + n.len()) == n
                    &&& forall|k: int| from <= k < p ==> white(#[trigger] l[k])
                    &&& forall|k: int| p + n.len() <= k < to ==> white(#[trigger] l[k])
                    &&& n.len() > 0
                    &&& !white(n[0])
                    &&& !white(n.last())
                };
            assert(l.subrange(p, p + n.len())[0] == l[p]);
            assert(l.subrange(p, p + n.len()).last() == l[p + n.len() - 1]);
            assert(!white(l[a as int]));
            assert(!white(l[b - 1]));
            assert(p == a);
            assert(p + n.len() == b);
        }
    }
    if b - a != name.len() {
        return false;
    }
    let mut i: usize = 0;
    while i < name.len()
        invariant
            i <= name@.len(),
            from <= a < b <= to <= list@.len(),
            b - a == name@.len(),
            forall|k: int| 0 <= k < i ==> list@[a + k] == #[trigger] name@[k],
            trims_to(list@, from as int, to as int, name@) ==> list@.subrange(a as int, b as int)
                == name@,
        decreases name@.len() - i,
    {
        if list[a + i] != name[i] {
            proof {
                assert(list@.subrange(a as int, b as int)[i as int] == list@[a + i]);
            }
            return false;
        }
        i += 1;
    }
    assert(l.subrange(a as int, a + n.len()) =~= n);
    assert(l[a as int] == n[0]);
    assert(l[b - 1] == n.last());
    true
}

/// Whether the comma-separated `list` forces a capture of the test.
pub fn env_force_match(list: &str, test_name: &str) -> (r: bool)
    ensures
        r == names(list@, test_name@),
{
    let l = chars_of(list);
    let n = chars_of(test_name);
    let mut from: usize = 0;
    let mut to: usize = 0;
    loop
        invariant
            l@ == list@,
            n@ == test_name@,
            from <= to <= l@.len(),
            from == 0 || l@[from - 1] == ',',
            forall|k: int| from <= k < to ==> #[trigger] l@[k] != ',',
            forall|f: int, t: int| #[trigger]
                between_commas(l@, f, t) && t < to ==> !trims_to(l@, f, t, n@),
        decreases l@.len() - to,
    {
        if to == l.len() || l[to] == ',' {
            if piece_is(&l, from, to, &n) {
                assert(between_commas(l@, from as int, to as int));
                return true;
            }
            assert forall|f: int, t: int| #[trigger]
                between_commas(l@, f, t) && t <= to implies !trims_to(l@, f, t, n@) by {
                if t == to {
                    if f < from {
                        assert(l@[from - 1] == ',');
                    }
                    assert(f == from);
                }
            }
            if to == l.len() {
                assert(!names(list@, test_name@));
                return false;
            }
            to += 1;
            from = to;
        } else {
            assert forall|f: int, t: int| #[trigger] between_commas(l@, f, t) implies t != to by {
                if t == to {
                    assert(l@[t] != ',');
                }
            }
            to += 1;
        }
    }
}

} // verus!
