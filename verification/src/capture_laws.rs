//! What a reader of a capture finds in it.
//!
//! Each law reads a header or a block back by the layout of its format.

use vstd::prelude::*;

use crate::addr::{IpAddr, Ipv4Addr, Ipv6Addr, SocketAddr};
use crate::bytes::{
    be_bytes, be_value, law_be_round_trip, law_le_round_trip, le_bytes, le_value, lemma_be_len,
    lemma_le_len, lemma_sizes,
};
use crate::pcapng::{
    canon, eth_frame, file_header, flow_key, ipv4_header, ipv6_header, mac, packet_block, padding,
    tcp_segment, udp_datagram, PcapView,
};
use crate::shim_std_tcp::{writes, WriteStep};
use crate::state::{lemma_peer, Now, StateView, Which};

verus! {

/// A TCP segment is read back by the layout of its header: who sent it and to
/// whom, where its bytes belong, up to where its sender has heard the other
/// side, its flags, and behind five words of header what it carries.
pub proof fn law_segment_reads_back(
    src_port: u16,
    dst_port: u16,
    number: u32,
    heard: u32,
    flags: u8,
    payload: Seq<u8>,
)
    ensures
        ({
            let s = tcp_segment(src_port, dst_port, number, heard, flags, payload);
            &&& s.len() == 20 + payload.len()
            &&& be_value(s.subrange(0, 2)) == src_port
            &&& be_value(s.subrange(2, 4)) == dst_port
            &&& be_value(s.subrange(4, 8)) == number
            &&& be_value(s.subrange(8, 12)) == heard
            &&& s[12] == 5 * 16
            &&& s[13] == flags
            &&& be_value(s.subrange(14, 16)) == 0xffff
            &&& be_value(s.subrange(16, 18)) == 0
            &&& be_value(s.subrange(18, 20)) == 0
            &&& s.subrange(20, s.len() as int) == payload
        }),
{
    let s = tcp_segment(src_port, dst_port, number, heard, flags, payload);
    lemma_sizes();
    law_be_round_trip(src_port as nat, 2);
    law_be_round_trip(dst_port as nat, 2);
    law_be_round_trip(number as nat, 4);
    law_be_round_trip(heard as nat, 4);
    assert(s.subrange(0, 2) =~= be_bytes(src_port as nat, 2));
    assert(s.subrange(2, 4) =~= be_bytes(dst_port as nat, 2));
    assert(s.subrange(4, 8) =~= be_bytes(number as nat, 4));
    assert(s.subrange(8, 12) =~= be_bytes(heard as nat, 4));
    lemma_two(s.subrange(14, 16));
    lemma_two(s.subrange(16, 18));
    lemma_two(s.subrange(18, 20));
    assert(s.subrange(20, s.len() as int) =~= payload);
}

/// What two bytes stand for.
proof fn lemma_two(s: Seq<u8>)
    requires
        s.len() == 2,
    ensures
        be_value(s) == 256 * s[0] + s[1],
{
    reveal_with_fuel(be_value, 3);
    assert(s.drop_last().drop_last() =~= Seq::<u8>::empty());
}

/// A UDP datagram is read back by the layout of its header: who sent it and to
/// whom, its length with the header, and behind eight bytes what it carries.
pub proof fn law_datagram_reads_back(src_port: u16, dst_port: u16, payload: Seq<u8>)
    requires
        8 + payload.len() <= 0xffff,
    ensures
        ({
            let s = udp_datagram(src_port, dst_port, payload);
            &&& s.len() == 8 + payload.len()
            &&& be_value(s.subrange(0, 2)) == src_port
            &&& be_value(s.subrange(2, 4)) == dst_port
            &&& be_value(s.subrange(4, 6)) == s.len()
            &&& be_value(s.subrange(6, 8)) == 0
            &&& s.subrange(8, s.len() as int) == payload
        }),
{
    let s = udp_datagram(src_port, dst_port, payload);
    lemma_sizes();
    law_be_round_trip(src_port as nat, 2);
    law_be_round_trip(dst_port as nat, 2);
    law_be_round_trip(8 + payload.len(), 2);
    assert(s.subrange(0, 2) =~= be_bytes(src_port as nat, 2));
    assert(s.subrange(2, 4) =~= be_bytes(dst_port as nat, 2));
    assert(s.subrange(4, 6) =~= be_bytes(8 + payload.len(), 2));
    lemma_two(s.subrange(6, 8));
    assert(s.subrange(8, s.len() as int) =~= payload);
}

/// The ends of a datagram are read back however long it is.
pub proof fn law_long_datagram_keeps_its_ends(src_port: u16, dst_port: u16, payload: Seq<u8>)
    ensures
        ({
            let s = udp_datagram(src_port, dst_port, payload);
            &&& s.len() == 8 + payload.len()
            &&& be_value(s.subrange(0, 2)) == src_port
            &&& be_value(s.subrange(2, 4)) == dst_port
            &&& s.subrange(8, s.len() as int) == payload
        }),
{
    let s = udp_datagram(src_port, dst_port, payload);
    lemma_sizes();
    law_be_round_trip(src_port as nat, 2);
    law_be_round_trip(dst_port as nat, 2);
    lemma_be_len(8 + payload.len(), 2);
    assert(s.subrange(0, 2) =~= be_bytes(src_port as nat, 2));
    assert(s.subrange(2, 4) =~= be_bytes(dst_port as nat, 2));
    assert(s.subrange(8, s.len() as int) =~= payload);
}

/// An IPv4 header is read back by its layout: version four and five words of
/// header, the length of the whole packet, the protocol, the address of the
/// sender and that of the receiver. Its packet is neither split nor to be split,
/// may pass sixty-four routers, and its checksum is left zero.
pub proof fn law_ipv4_header_reads_back(src: Ipv4Addr, dst: Ipv4Addr, proto: u8, payload_len: nat)
    ensures
        ({
            let h = ipv4_header(src, dst, proto, payload_len);
            &&& h.len() == 20
            &&& h[0] == 4 * 16 + 5
            &&& h[1] == 0
            &&& 20 + payload_len <= 0xffff ==> be_value(h.subrange(2, 4)) == 20 + payload_len
            &&& be_value(h.subrange(4, 6)) == 0
            &&& be_value(h.subrange(6, 8)) == 0x4000
            &&& h[8] == 64
            &&& h[9] == proto
            &&& be_value(h.subrange(10, 12)) == 0
            &&& be_value(h.subrange(12, 16)) == src.bits
            &&& be_value(h.subrange(16, 20)) == dst.bits
        }),
{
    let h = ipv4_header(src, dst, proto, payload_len);
    lemma_sizes();
    lemma_be_len(20 + payload_len, 2);
    if 20 + payload_len <= 0xffff {
        law_be_round_trip(20 + payload_len, 2);
    }
    law_be_round_trip(src.bits as nat, 4);
    law_be_round_trip(dst.bits as nat, 4);
    assert(h.subrange(2, 4) =~= be_bytes(20 + payload_len, 2));
    assert(h.subrange(12, 16) =~= be_bytes(src.bits as nat, 4));
    assert(h.subrange(16, 20) =~= be_bytes(dst.bits as nat, 4));
    lemma_two(h.subrange(4, 6));
    lemma_two(h.subrange(6, 8));
    lemma_two(h.subrange(10, 12));
}

/// An IPv6 header is read back by its layout: version six, the length of what
/// follows it, what that is, and both addresses, the sender's first.
pub proof fn law_ipv6_header_reads_back(src: Ipv6Addr, dst: Ipv6Addr, proto: u8, payload_len: nat)
    ensures
        ({
            let h = ipv6_header(src, dst, proto, payload_len);
            &&& h.len() == 40
            &&& h[0] == 6 * 16
            &&& h[1] == 0
            &&& be_value(h.subrange(2, 4)) == 0
            &&& payload_len <= 0xffff ==> be_value(h.subrange(4, 6)) == payload_len
            &&& h[6] == proto
            &&& h[7] == 64
            &&& be_value(h.subrange(8, 24)) == src.bits
            &&& be_value(h.subrange(24, 40)) == dst.bits
        }),
{
    let h = ipv6_header(src, dst, proto, payload_len);
    lemma_sizes();
    lemma_be_len(payload_len, 2);
    if payload_len <= 0xffff {
        law_be_round_trip(payload_len, 2);
    }
    law_be_round_trip(src.bits as nat, 16);
    law_be_round_trip(dst.bits as nat, 16);
    assert(h.subrange(4, 6) =~= be_bytes(payload_len, 2));
    assert(h.subrange(8, 24) =~= be_bytes(src.bits as nat, 16));
    assert(h.subrange(24, 40) =~= be_bytes(dst.bits as nat, 16));
    lemma_two(h.subrange(2, 4));
}

/// The address that a packet with an IPv6 header gives for `ip`: its own, or
/// the one that IPv6 keeps for an IPv4 address, eighty zero bits, sixteen set
/// bits and the address.
pub open spec fn long_address(ip: IpAddr) -> nat {
    match ip {
        IpAddr::V4(v4) => (0xffff * 0x1_0000_0000 + v4.bits) as nat,
        IpAddr::V6(v6) => v6.bits as nat,
    }
}

/// A frame is read back by its layout: the receiver's hardware address comes
/// first, the sender's second; the type says which header follows, that of IPv4
/// exactly where both ends have IPv4 addresses; the header names the protocol,
/// the sender and the receiver; and what the packet carries stands behind it.
pub proof fn law_frame_reads_back(src: SocketAddr, dst: SocketAddr, proto: u8, l4: Seq<u8>)
    ensures
        ({
            let f = eth_frame(src, dst, proto, l4);
            &&& f.len() >= 34
            &&& f.subrange(0, 6) == mac(dst)
            &&& f.subrange(6, 12) == mac(src)
            &&& match (src.ip_part(), dst.ip_part()) {
                (IpAddr::V4(s), IpAddr::V4(d)) => {
                    &&& f.len() == 34 + l4.len()
                    &&& be_value(f.subrange(12, 14)) == 0x0800
                    &&& f[14] == 0x45
                    &&& 20 + l4.len() <= 0xffff ==> be_value(f.subrange(16, 18)) == 20 + l4.len()
                    &&& f[23] == proto
                    &&& be_value(f.subrange(26, 30)) == s.bits
                    &&& be_value(f.subrange(30, 34)) == d.bits
                    &&& f.subrange(34, f.len() as int) == l4
                },
                _ => {
                    &&& f.len() == 54 + l4.len()
                    &&& be_value(f.subrange(12, 14)) == 0x86dd
                    &&& f[14] == 0x60
                    &&& l4.len() <= 0xffff ==> be_value(f.subrange(18, 20)) == l4.len()
                    &&& f[20] == proto
                    &&& be_value(f.subrange(22, 38)) == long_address(src.ip_part())
                    &&& be_value(f.subrange(38, 54)) == long_address(dst.ip_part())
                    &&& f.subrange(54, f.len() as int) == l4
                },
            }
        }),
{
    let f = eth_frame(src, dst, proto, l4);
    law_hardware_address_is_local(src);
    law_hardware_address_is_local(dst);
    lemma_sizes();
    assert(f.subrange(0, 6) =~= mac(dst));
    assert(f.subrange(6, 12) =~= mac(src));
    law_be_round_trip(0x0800, 2);
    law_be_round_trip(0x86dd, 2);
    match (src.ip_part(), dst.ip_part()) {
        (IpAddr::V4(s), IpAddr::V4(d)) => {
            let h = ipv4_header(s, d, proto, l4.len());
            law_ipv4_header_reads_back(s, d, proto, l4.len());
            assert(f =~= mac(dst) + mac(src) + be_bytes(0x0800, 2) + h + l4);
            assert(f.subrange(12, 14) =~= be_bytes(0x0800, 2));
            assert(f.subrange(16, 18) =~= h.subrange(2, 4));
            assert(f.subrange(26, 30) =~= h.subrange(12, 16));
            assert(f.subrange(30, 34) =~= h.subrange(16, 20));
            assert(f[14] == h[0]);
            assert(f[23] == h[9]);
            assert(f.subrange(34, f.len() as int) =~= l4);
        },
        (s, d) => {
            let (a, b) = (crate::pcapng::as_ipv6(s), crate::pcapng::as_ipv6(d));
            let h = ipv6_header(a, b, proto, l4.len());
            law_ipv6_header_reads_back(a, b, proto, l4.len());
            lemma_long_address(s);
            lemma_long_address(d);
            assert(f =~= mac(dst) + mac(src) + be_bytes(0x86dd, 2) + h + l4);
            assert(f.subrange(12, 14) =~= be_bytes(0x86dd, 2));
            assert(f.subrange(18, 20) =~= h.subrange(4, 6));
            assert(f.subrange(22, 38) =~= h.subrange(8, 24));
            assert(f.subrange(38, 54) =~= h.subrange(24, 40));
            assert(f[14] == h[0]);
            assert(f[20] == h[6]);
            assert(f.subrange(54, f.len() as int) =~= l4);
        },
    }
}

proof fn lemma_long_address(ip: IpAddr)
    ensures
        crate::pcapng::as_ipv6(ip).bits == long_address(ip),
{
}

/// The hardware address of a socket has six bytes, is administered locally,
/// and is that of one station. Sockets at one address and port share it.
pub proof fn law_hardware_address_is_local(addr: SocketAddr)
    ensures
        mac(addr).len() == 6,
        mac(addr)[0] & 0x03 == 0x02,
        forall|other: SocketAddr|
            other.ip_part() == addr.ip_part() && other.port_part() == addr.port_part()
                ==> #[trigger] mac(other) == mac(addr),
{
    let h = crate::pcapng::fnv(addr.ip_part().octets() + be_bytes(addr.port_part() as nat, 2));
    lemma_be_len(h as nat, 8);
    assert(0x02u8 & 0x03 == 0x02) by (bit_vector);
}

/// What four bytes at `at` stand for, least significant byte first.
pub open spec fn word_at(s: Seq<u8>, at: int) -> nat {
    le_value(s.subrange(at, at + 4))
}

/// A packet block is read back by its layout: its type, its length at both
/// ends, the interface, the time, the length of the frame twice, and the frame.
/// Zeros fill the block up to a whole number of words.
pub proof fn law_packet_block_reads_back(frame: Seq<u8>, micros: nat)
    requires
        frame.len() + 35 <= 0xffff_ffff,
        micros < 0x1_0000_0000_0000_0000,
    ensures
        ({
            let b = packet_block(frame, micros);
            &&& 32 + frame.len() <= b.len() < 36 + frame.len()
            &&& b.len() % 4 == 0
            &&& word_at(b, 0) == 6
            &&& word_at(b, 4) == b.len()
            &&& word_at(b, 8) == 0
            &&& word_at(b, 12) * 0x1_0000_0000 + word_at(b, 16) == micros
            &&& word_at(b, 20) == frame.len()
            &&& word_at(b, 24) == frame.len()
            &&& b.subrange(28, (28 + frame.len()) as int) == frame
            &&& forall|i: int| 28 + frame.len() <= i < b.len() - 4 ==> #[trigger] b[i] == 0
            &&& word_at(b, b.len() - 4) == b.len()
        }),
{
    let b = packet_block(frame, micros);
    let total = 32 + frame.len() + padding(frame.len());
    let (high, low) = (micros / 0x1_0000_0000, micros % 0x1_0000_0000);
    lemma_sizes();
    law_le_round_trip(6, 4);
    law_le_round_trip(total, 4);
    law_le_round_trip(0, 4);
    law_le_round_trip(high, 4);
    law_le_round_trip(low, 4);
    law_le_round_trip(frame.len(), 4);
    lemma_le_len(6, 4);
    lemma_le_len(total, 4);
    lemma_le_len(0, 4);
    lemma_le_len(high, 4);
    lemma_le_len(micros, 4);
    lemma_le_len(frame.len(), 4);
    lemma_low_word(micros);
    let zeros = Seq::new(padding(frame.len()), |i: int| 0u8);
    assert(b.len() == total);
    assert(b.subrange(0, 4) =~= le_bytes(6, 4));
    assert(b.subrange(4, 8) =~= le_bytes(total, 4));
    assert(b.subrange(8, 12) =~= le_bytes(0, 4));
    assert(b.subrange(12, 16) =~= le_bytes(high, 4));
    assert(b.subrange(16, 20) =~= le_bytes(micros, 4));
    assert(b.subrange(20, 24) =~= le_bytes(frame.len(), 4));
    assert(b.subrange(24, 28) =~= le_bytes(frame.len(), 4));
    assert(b.subrange(28, (28 + frame.len()) as int) =~= frame);
    assert(b.subrange(total - 4, total as int) =~= le_bytes(total, 4));
    assert forall|i: int| 28 + frame.len() <= i < b.len() - 4 implies #[trigger] b[i] == 0 by {
        assert(b[i] == zeros[i - 28 - frame.len()]);
    }
}

/// The low word of a number is that of what is left of it by whole words.
proof fn lemma_low_word(v: nat)
    ensures
        le_bytes(v, 4) == le_bytes(v % 0x1_0000_0000, 4),
{
    let w = v % 0x1_0000_0000;
    reveal_with_fuel(le_bytes, 5);
    assert(v % 256 == w % 256);
    assert((v / 256) % 256 == (w / 256) % 256);
    assert((v / 256 / 256) % 256 == (w / 256 / 256) % 256);
    assert((v / 256 / 256 / 256) % 256 == (w / 256 / 256 / 256) % 256);
    assert(le_bytes(v, 4) =~= le_bytes(w, 4));
}

/// A capture opens with a section header, which says by its magic number that
/// the least significant byte comes first, gives the format's version as one
/// point zero and leaves the section's length open; and with the description of
/// one Ethernet interface that captures whole packets.
pub proof fn law_file_header_reads_back()
    ensures
        ({
            let h = file_header();
            &&& h.len() == 48
            &&& word_at(h, 0) == 0x0A0D_0D0A
            &&& word_at(h, 4) == 28
            &&& word_at(h, 8) == 0x1A2B_3C4D
            &&& le_value(h.subrange(12, 14)) == 1
            &&& le_value(h.subrange(14, 16)) == 0
            &&& le_value(h.subrange(16, 24)) == 0xffff_ffff_ffff_ffff
            &&& word_at(h, 24) == 28
            &&& word_at(h, 28) == 1
            &&& word_at(h, 32) == 20
            &&& le_value(h.subrange(36, 38)) == 1
            &&& le_value(h.subrange(38, 40)) == 0
            &&& word_at(h, 40) == 65535
            &&& word_at(h, 44) == 20
        }),
{
    let h = file_header();
    lemma_sizes();
    law_le_round_trip(0x0A0D_0D0A, 4);
    law_le_round_trip(28, 4);
    law_le_round_trip(0x1A2B_3C4D, 4);
    law_le_round_trip(1, 2);
    law_le_round_trip(0, 2);
    law_le_round_trip(0xffff_ffff_ffff_ffff, 8);
    law_le_round_trip(1, 4);
    law_le_round_trip(20, 4);
    law_le_round_trip(65535, 4);
    lemma_le_len(0x0A0D_0D0A, 4);
    lemma_le_len(28, 4);
    lemma_le_len(0x1A2B_3C4D, 4);
    lemma_le_len(1, 2);
    lemma_le_len(0, 2);
    lemma_le_len(0xffff_ffff_ffff_ffff, 8);
    lemma_le_len(1, 4);
    lemma_le_len(20, 4);
    lemma_le_len(65535, 4);
    assert(h.subrange(0, 4) =~= le_bytes(0x0A0D_0D0A, 4));
    assert(h.subrange(4, 8) =~= le_bytes(28, 4));
    assert(h.subrange(8, 12) =~= le_bytes(0x1A2B_3C4D, 4));
    assert(h.subrange(12, 14) =~= le_bytes(1, 2));
    assert(h.subrange(14, 16) =~= le_bytes(0, 2));
    assert(h.subrange(16, 24) =~= le_bytes(0xffff_ffff_ffff_ffff, 8));
    assert(h.subrange(24, 28) =~= le_bytes(28, 4));
    assert(h.subrange(28, 32) =~= le_bytes(1, 4));
    assert(h.subrange(32, 36) =~= le_bytes(20, 4));
    assert(h.subrange(36, 38) =~= le_bytes(1, 2));
    assert(h.subrange(38, 40) =~= le_bytes(0, 2));
    assert(h.subrange(40, 44) =~= le_bytes(65535, 4));
    assert(h.subrange(44, 48) =~= le_bytes(20, 4));
}

// ----- Conversations -----

/// A TCP segment as a capture shows it.
pub struct Segment {
    pub src: SocketAddr,
    pub dst: SocketAddr,
    pub number: u32,
    pub heard: u32,
    pub flags: u8,
    pub payload: Seq<u8>,
}

impl Segment {
    /// The block that holds it.
    #[verifier::opaque]
    pub open spec fn block(self, micros: nat) -> Seq<u8> {
        packet_block(
            eth_frame(
                self.src,
                self.dst,
                6,
                tcp_segment(
                    self.src.port_part(),
                    self.dst.port_part(),
                    self.number,
                    self.heard,
                    self.flags,
                    self.payload,
                ),
            ),
            micros,
        )
    }

    /// It goes from `src` to `dst` with these flags and carries `payload`.
    pub open spec fn is(
        self,
        src: SocketAddr,
        dst: SocketAddr,
        flags: u8,
        payload: Seq<u8>,
    ) -> bool {
        self.src == src && self.dst == dst && self.flags == flags && self.payload == payload
    }

    /// It acknowledges all of `other`, which spans `length` numbers, and goes on
    /// where `other` has heard its sender.
    pub open spec fn answers(self, other: Segment, length: nat) -> bool {
        &&& self.src == other.dst
        &&& self.dst == other.src
        &&& self.number == other.heard
        &&& self.heard == (other.number + length) % 0x1_0000_0000
    }
}

/// The number of the next byte of `src` in its flow to `dst`, and how far it
/// has heard the other end.
pub open spec fn place(w: PcapView, src: SocketAddr, dst: SocketAddr) -> (u32, u32) {
    w.flows[flow_key(src, dst)].seqs(flow_key(src, dst), src)
}

/// Nothing changed from `w` to `t` but the flow between two sockets and, at the
/// end, what was written.
pub open spec fn appended(
    w: PcapView,
    t: PcapView,
    src: SocketAddr,
    dst: SocketAddr,
    more: Seq<u8>,
) -> bool {
    &&& t.written == w.written + more
    &&& t.handed == w.handed
    &&& forall|k: crate::pcapng::FlowKey|
        k != flow_key(src, dst) ==> {
            &&& (#[trigger] t.flows.dom().contains(k)) == w.flows.dom().contains(k)
            &&& t.flows[k] == w.flows[k]
        }
}

proof fn lemma_segment(w: PcapView, s: Segment, micros: nat)
    ensures
        ({
            let t = w.with_segment(
                s.src,
                s.dst,
                s.number,
                s.heard,
                s.flags,
                s.payload,
                micros,
            );
            &&& t == (PcapView { written: w.written + s.block(micros), ..w })
        }),
{
    reveal(PcapView::with_segment);
    reveal(Segment::block);
}

/// A connection opens with a handshake of three segments: the client asks, the
/// server answers, the client answers that; each side then stands one behind
/// the number that it asked with, and has heard the other so far.
pub proof fn law_handshake_is_captured(
    w: PcapView,
    client: SocketAddr,
    server: SocketAddr,
    micros: nat,
) -> (r: (Segment, Segment, Segment))
    requires
        canon(client) != canon(server),
        w.flows.dom().contains(flow_key(client, server)) ==> !w.flows[flow_key(
            client,
            server,
        )].handshake_done,
    ensures
        appended(
            w,
            w.opened(client, server, micros),
            client,
            server,
            r.0.block(micros) + r.1.block(micros) + r.2.block(micros),
        ),
        r.0.is(client, server, 0x02, Seq::empty()),
        r.0.heard == 0,
        r.1.is(server, client, 0x12, Seq::empty()),
        r.1.heard == (r.0.number + 1) % 0x1_0000_0000,
        r.2.is(client, server, 0x10, Seq::empty()),
        r.2.answers(r.1, 1),
        w.opened(client, server, micros).flows.dom().contains(flow_key(client, server)),
        w.opened(client, server, micros).flows[flow_key(client, server)].handshake_done,
        place(w.opened(client, server, micros), client, server) == (r.2.number, r.2.heard),
        place(w.opened(client, server, micros), server, client) == (r.2.heard, r.2.number),
{
    let t = w.touched(client, server);
    let key = flow_key(client, server);
    let f = t.flows[key];
    let (c, s) = f.seqs(key, client);
    let (c1, s1) = (c.wrapping_add(1), s.wrapping_add(1));
    let none = Seq::<u8>::empty();
    let a = Segment { src: client, dst: server, number: c, heard: 0, flags: 0x02, payload: none };
    let b = Segment { src: server, dst: client, number: s, heard: c1, flags: 0x12, payload: none };
    let d = Segment { src: client, dst: server, number: c1, heard: s1, flags: 0x10, payload: none };
    let t1 = PcapView { written: t.written + a.block(micros), ..t };
    let t2 = PcapView { written: t1.written + b.block(micros), ..t1 };
    lemma_segment(t, a, micros);
    lemma_segment(t1, b, micros);
    lemma_segment(t2, d, micros);
    let o = w.opened(client, server, micros);
    assert(o.written =~= w.written + (a.block(micros) + b.block(micros) + d.block(micros)));
    crate::pcapng::law_flow_key_is_symmetric(client, server);
    (a, b, d)
}

/// An open connection is not opened again, from whichever end.
pub proof fn law_open_connection_has_no_second_handshake(
    w: PcapView,
    src: SocketAddr,
    dst: SocketAddr,
    micros: nat,
)
    requires
        w.flows.dom().contains(flow_key(src, dst)),
        w.flows[flow_key(src, dst)].handshake_done,
    ensures
        w.opened(src, dst, micros) == w,
        w.opened(dst, src, micros) == w,
{
    crate::pcapng::law_flow_key_is_symmetric(src, dst);
}

/// A new flow takes two initial numbers, ten thousand apart, that no flow
/// before it took, and the next one goes on behind them.
pub proof fn law_new_flow_takes_fresh_numbers(w: PcapView, src: SocketAddr, dst: SocketAddr)
    requires
        canon(src) != canon(dst),
        !w.flows.dom().contains(flow_key(src, dst)),
    ensures
        ({
            let t = w.touched(src, dst);
            let (p, q) = place(t, src, dst);
            &&& t.next_isn == (w.next_isn + 20_000) % 0x1_0000_0000
            &&& p == w.next_isn || q == w.next_isn
            &&& p == (w.next_isn + 10_000) % 0x1_0000_0000 || q == (w.next_isn + 10_000)
                % 0x1_0000_0000
            &&& p != q
            &&& t.written == w.written
            &&& !t.flows[flow_key(src, dst)].handshake_done
            &&& !t.flows[flow_key(src, dst)].closed(flow_key(src, dst), src)
            &&& !t.flows[flow_key(src, dst)].closed(flow_key(src, dst), dst)
        }),
{
}

/// Data on an open connection is shown as one segment from its sender, which
/// goes on where the sender stood, and as the other end's answer to it. The
/// next data goes on behind it.
pub proof fn law_data_is_captured(
    w: PcapView,
    src: SocketAddr,
    dst: SocketAddr,
    payload: Seq<u8>,
    micros: nat,
) -> (r: (Segment, Segment))
    requires
        canon(src) != canon(dst),
        w.flows.dom().contains(flow_key(src, dst)),
        w.flows[flow_key(src, dst)].handshake_done,
        payload.len() > 0,
    ensures
        appended(
            w,
            w.with_data(src, dst, payload, micros),
            src,
            dst,
            r.0.block(micros) + r.1.block(micros),
        ),
        r.0.is(src, dst, 0x18, payload),
        (r.0.number, r.0.heard) == place(w, src, dst),
        r.1.is(dst, src, 0x10, Seq::empty()),
        r.1.answers(r.0, payload.len()),
        place(w.with_data(src, dst, payload, micros), src, dst) == (r.1.heard, r.1.number),
        place(w.with_data(src, dst, payload, micros), dst, src) == (r.1.number, r.1.heard),
        w.with_data(src, dst, payload, micros).flows.dom().contains(flow_key(src, dst)),
        w.with_data(src, dst, payload, micros).flows[flow_key(src, dst)].handshake_done,
{
    let key = flow_key(src, dst);
    let f = w.flows[key];
    let (s, p) = f.seqs(key, src);
    let s1 = s.wrapping_add((payload.len() % 0x1_0000_0000) as u32);
    let none = Seq::<u8>::empty();
    let a = Segment { src, dst, number: s, heard: p, flags: 0x18, payload };
    let b = Segment { src: dst, dst: src, number: p, heard: s1, flags: 0x10, payload: none };
    let t1 = PcapView { written: w.written + a.block(micros), ..w };
    lemma_segment(w, a, micros);
    lemma_segment(t1, b, micros);
    assert(w.opened(src, dst, micros) == w);
    let t = w.with_data(src, dst, payload, micros);
    assert(t.written =~= w.written + (a.block(micros) + b.block(micros)));
    crate::pcapng::law_flow_key_is_symmetric(src, dst);
    (a, b)
}

/// Data on a connection that has not been opened opens it first, as if the
/// sender had asked. Nothing at all is not shown.
pub proof fn law_first_data_opens(
    w: PcapView,
    src: SocketAddr,
    dst: SocketAddr,
    payload: Seq<u8>,
    micros: nat,
)
    ensures
        payload.len() == 0 ==> w.with_data(src, dst, payload, micros) == w,
        w.with_data(src, dst, payload, micros) == if payload.len() == 0 {
            w
        } else {
            w.opened(src, dst, micros).with_data(src, dst, payload, micros)
        },
{
    crate::pcapng::law_open_is_idempotent(w, src, dst, micros, micros);
}

/// The end of a side is shown as a segment that says so, which takes one number,
/// and as the other end's answer to it. The other side stays as it was.
pub proof fn law_end_is_captured(
    w: PcapView,
    src: SocketAddr,
    dst: SocketAddr,
    micros: nat,
) -> (r: (Segment, Segment))
    requires
        canon(src) != canon(dst),
        w.flows.dom().contains(flow_key(src, dst)),
        !w.flows[flow_key(src, dst)].closed(flow_key(src, dst), src),
    ensures
        appended(
            w,
            w.with_fin(src, dst, micros),
            src,
            dst,
            r.0.block(micros) + r.1.block(micros),
        ),
        r.0.is(src, dst, 0x11, Seq::empty()),
        (r.0.number, r.0.heard) == place(w, src, dst),
        r.1.is(dst, src, 0x10, Seq::empty()),
        r.1.answers(r.0, 1),
        place(w.with_fin(src, dst, micros), src, dst) == (r.1.heard, r.1.number),
        place(w.with_fin(src, dst, micros), dst, src) == (r.1.number, r.1.heard),
        w.with_fin(src, dst, micros).flows[flow_key(src, dst)].closed(flow_key(src, dst), src),
        w.with_fin(src, dst, micros).flows[flow_key(src, dst)].closed(flow_key(src, dst), dst)
            == w.flows[flow_key(src, dst)].closed(flow_key(src, dst), dst),
        w.with_fin(src, dst, micros).with_fin(src, dst, micros) == w.with_fin(src, dst, micros),
{
    let key = flow_key(src, dst);
    let f = w.flows[key];
    let (s, p) = f.seqs(key, src);
    let s1 = s.wrapping_add(1);
    let none = Seq::<u8>::empty();
    let a = Segment { src, dst, number: s, heard: p, flags: 0x11, payload: none };
    let b = Segment { src: dst, dst: src, number: p, heard: s1, flags: 0x10, payload: none };
    let t1 = PcapView { written: w.written + a.block(micros), ..w };
    lemma_segment(w, a, micros);
    lemma_segment(t1, b, micros);
    let t = w.with_fin(src, dst, micros);
    assert(t.written =~= w.written + (a.block(micros) + b.block(micros)));
    crate::pcapng::law_flow_key_is_symmetric(src, dst);
    (a, b)
}

/// The end of a flow that the capture has not seen is not shown.
pub proof fn law_unknown_flow_does_not_end(
    w: PcapView,
    src: SocketAddr,
    dst: SocketAddr,
    micros: nat,
)
    requires
        !w.flows.dom().contains(flow_key(src, dst)),
    ensures
        w.with_fin(src, dst, micros) == w,
{
}

/// A reset is shown as one segment from the side that resets. It goes on where
/// that side stood, and acknowledges what that side has heard, if anything.
pub proof fn law_reset_is_captured(
    w: PcapView,
    src: SocketAddr,
    dst: SocketAddr,
    micros: nat,
) -> (r: Segment)
    ensures
        appended(w, w.with_rst(src, dst, micros), src, dst, r.block(micros)),
        w.with_rst(src, dst, micros).flows == w.flows,
        r.src == src,
        r.dst == dst,
        r.payload == Seq::<u8>::empty(),
        w.flows.dom().contains(flow_key(src, dst)) ==> (r.number, r.heard) == place(w, src, dst),
        !w.flows.dom().contains(flow_key(src, dst)) ==> r.number == 0 && r.heard == 0,
        r.heard == 0 ==> r.flags == 0x04,
        r.heard != 0 ==> r.flags == 0x14,
{
    let key = flow_key(src, dst);
    let known = w.flows.dom().contains(key);
    let (s, p) = if known {
        w.flows[key].seqs(key, src)
    } else {
        (0u32, 0u32)
    };
    let none = Seq::<u8>::empty();
    let flags: u8 = if p == 0 {
        0x04
    } else {
        0x14
    };
    let a = Segment { src, dst, number: s, heard: p, flags, payload: none };
    lemma_segment(w, a, micros);
    a
}

/// A datagram is shown as one packet from its sender to its receiver, and
/// changes no flow.
pub proof fn law_datagram_is_captured(
    w: PcapView,
    src: SocketAddr,
    dst: SocketAddr,
    payload: Seq<u8>,
    micros: nat,
)
    ensures
        w.with_datagram(src, dst, payload, micros) == (PcapView {
            written: w.written + packet_block(
                eth_frame(
                    src,
                    dst,
                    17,
                    udp_datagram(src.port_part(), dst.port_part(), payload),
                ),
                micros,
            ),
            ..w
        }),
{
    reveal(PcapView::with_datagram);
}

/// Two flows are one exactly where both ends are, whichever is named first; of
/// an end the address and the port count.
pub proof fn law_flow_is_its_two_ends(a: SocketAddr, b: SocketAddr, c: SocketAddr, d: SocketAddr)
    ensures
        flow_key(a, b) == flow_key(b, a),
        canon(a) == canon(c) <==> a.ip_part() == c.ip_part() && a.port_part() == c.port_part(),
        flow_key(a, b) == flow_key(c, d) <==> (canon(a) == canon(c) && canon(b) == canon(d)) || (
        canon(a) == canon(d) && canon(b) == canon(c)),
{
}

// ----- Names -----

/// A file name holds nothing but letters, digits, `-`, `_` and `.`. What a test's
/// name has of these stays, in its place; a colon becomes a dash, and everything
/// else an underscore. A capture's name ends as captures do.
pub proof fn law_capture_name_is_safe(name: Seq<char>, i: int)
    requires
        0 <= i < name.len(),
    ensures
        ({
            let file = crate::pcapng::capture_name(name);
            let c = name[i];
            let plain = ('a' <= c && c <= 'z') || ('A' <= c && c <= 'Z') || ('0' <= c && c <= '9')
                || c == '-' || c == '_' || c == '.';
            &&& file.len() == name.len() + 7
            &&& plain ==> file[i] == c
            &&& c == ':' ==> file[i] == '-'
            &&& !plain && c != ':' ==> file[i] == '_'
            &&& file.skip(name.len() as int) == seq!['.', 'p', 'c', 'a', 'p', 'n', 'g']
        }),
{
    reveal_strlit(".pcapng");
    let file = crate::pcapng::capture_name(name);
    assert(file.skip(name.len() as int) =~= seq!['.', 'p', 'c', 'a', 'p', 'n', 'g']);
}

/// A name is listed by itself.
pub proof fn law_name_lists_itself(name: Seq<char>)
    requires
        name.len() > 0,
        !crate::pcapng::white(name[0]),
        !crate::pcapng::white(name.last()),
        forall|k: int| 0 <= k < name.len() ==> #[trigger] name[k] != ',',
    ensures
        crate::pcapng::names(name, name),
{
    assert(name.subrange(0, 0int + name.len()) =~= name);
    assert(crate::pcapng::trims_to(name, 0, name.len() as int, name));
    assert(crate::pcapng::between_commas(name, 0, name.len() as int));
}

/// A list names what the lists on both sides of one of its commas name.
pub proof fn law_list_names_what_its_parts_name(a: Seq<char>, b: Seq<char>, name: Seq<char>)
    ensures
        crate::pcapng::names(a + seq![','] + b, name) <==> crate::pcapng::names(a, name)
            || crate::pcapng::names(b, name),
{
    if crate::pcapng::names(a, name) {
        lemma_first_part_counts(a, b, name);
    }
    if crate::pcapng::names(b, name) {
        lemma_second_part_counts(a, b, name);
    }
    if crate::pcapng::names(a + seq![','] + b, name) {
        lemma_nothing_else_counts(a, b, name);
    }
}

proof fn lemma_first_part_counts(a: Seq<char>, b: Seq<char>, name: Seq<char>)
    requires
        crate::pcapng::names(a, name),
    ensures
        crate::pcapng::names(a + seq![','] + b, name),
{
    let l = a + seq![','] + b;
    let (from, to) = choose|from: int, to: int| #[trigger]
        crate::pcapng::between_commas(a, from, to) && crate::pcapng::trims_to(a, from, to, name);
    lemma_same_part(a, l, 0, from, to, name);
    assert(crate::pcapng::between_commas(l, from, to));
}

proof fn lemma_second_part_counts(a: Seq<char>, b: Seq<char>, name: Seq<char>)
    requires
        crate::pcapng::names(b, name),
    ensures
        crate::pcapng::names(a + seq![','] + b, name),
{
    let l = a + seq![','] + b;
    let n = a.len() as int;
    let (from, to) = choose|from: int, to: int| #[trigger]
        crate::pcapng::between_commas(b, from, to) && crate::pcapng::trims_to(b, from, to, name);
    lemma_same_part(b, l, n + 1, from, to, name);
    assert forall|k: int| from + n + 1 <= k < to + n + 1 implies #[trigger] l[k] != ',' by {
        assert(l[k] == b[k - n - 1]);
    }
    assert(crate::pcapng::between_commas(l, from + n + 1, to + n + 1));
}

proof fn lemma_nothing_else_counts(a: Seq<char>, b: Seq<char>, name: Seq<char>)
    requires
        crate::pcapng::names(a + seq![','] + b, name),
    ensures
        crate::pcapng::names(a, name) || crate::pcapng::names(b, name),
{
    let l = a + seq![','] + b;
    let n = a.len() as int;
    assert(l[n] == ',');
    let (from, to) = choose|from: int, to: int| #[trigger]
        crate::pcapng::between_commas(l, from, to) && crate::pcapng::trims_to(l, from, to, name);
    if from <= n {
        assert(to <= n);
        lemma_same_part(l, a, 0, from, to, name);
        assert forall|k: int| from <= k < to implies #[trigger] a[k] != ',' by {
            assert(l[k] == a[k]);
        }
        assert(crate::pcapng::between_commas(a, from, to));
    } else {
        lemma_same_part(l, b, -(n + 1), from, to, name);
        assert forall|k: int| from - n - 1 <= k < to - n - 1 implies #[trigger] b[k] != ',' by {
            assert(l[k + n + 1] == b[k]);
        }
        assert(crate::pcapng::between_commas(b, from - n - 1, to - n - 1));
    }
}

/// What a part of one list trims to, the same part of another list trims to.
proof fn lemma_same_part(
    a: Seq<char>,
    b: Seq<char>,
    shift: int,
    from: int,
    to: int,
    name: Seq<char>,
)
    requires
        0 <= from <= to <= a.len(),
        0 <= from + shift,
        to + shift <= b.len(),
        forall|k: int| from <= k < to ==> #[trigger] a[k] == b[k + shift],
        crate::pcapng::trims_to(a, from, to, name),
    ensures
        crate::pcapng::trims_to(b, from + shift, to + shift, name),
{
    let s = choose|s: int|
        {
            &&& from <= s
            &&& s + name.len() <= to
            &&& #[trigger] a.subrange(s, s + name.len()) == name
            &&& forall|k: int| from <= k < s ==> crate::pcapng::white(#[trigger] a[k])
            &&& forall|k: int| s + name.len() <= k < to ==> crate::pcapng::white(#[trigger] a[k])
            &&& name.len() > 0
            &&& !crate::pcapng::white(name[0])
            &&& !crate::pcapng::white(name.last())
        };
    assert forall|k: int| 0 <= k < name.len() implies b.subrange(
        s + shift,
        s + shift + name.len(),
    )[k] == #[trigger] name[k] by {
        assert(a.subrange(s, s + name.len())[k] == a[s + k]);
        assert(a[s + k] == b[s + k + shift]);
    }
    assert(b.subrange(s + shift, s + shift + name.len()) =~= name);
    assert forall|k: int| from + shift <= k < s + shift implies crate::pcapng::white(
        #[trigger] b[k],
    ) by {
        assert(a[k - shift] == b[k - shift + shift]);
    }
    assert forall|k: int| s + shift + name.len() <= k < to + shift implies crate::pcapng::white(
        #[trigger] b[k],
    ) by {
        assert(a[k - shift] == b[k - shift + shift]);
    }
}

/// White space around a name does not count.
pub proof fn law_white_space_around_a_name_is_ignored(
    before: Seq<char>,
    name: Seq<char>,
    after: Seq<char>,
)
    requires
        name.len() > 0,
        !crate::pcapng::white(name[0]),
        !crate::pcapng::white(name.last()),
        forall|k: int| 0 <= k < name.len() ==> #[trigger] name[k] != ',',
        forall|k: int| 0 <= k < before.len() ==> crate::pcapng::white(#[trigger] before[k]),
        forall|k: int| 0 <= k < after.len() ==> crate::pcapng::white(#[trigger] after[k]),
    ensures
        crate::pcapng::names(before + name + after, name),
        crate::pcapng::white(' '),
        crate::pcapng::white('\t'),
        crate::pcapng::white('\n'),
        forall|c: char| 'a' <= c && c <= 'z' ==> !#[trigger] crate::pcapng::white(c),
{
    let l = before + name + after;
    let (m, n) = (before.len() as int, name.len() as int);
    assert(l.subrange(m, m + n) =~= name);
    assert forall|k: int| m + n <= k < l.len() implies crate::pcapng::white(#[trigger] l[k]) by {
        assert(l[k] == after[k - m - n]);
    }
    assert forall|k: int| 0 <= k < l.len() implies #[trigger] l[k] != ',' by {
        if k < m {
            assert(l[k] == before[k]);
        } else if k < m + n {
            assert(l[k] == name[k - m]);
        } else {
            assert(l[k] == after[k - m - n]);
        }
    }
    assert(crate::pcapng::trims_to(l, 0, l.len() as int, name));
    assert(crate::pcapng::between_commas(l, 0, l.len() as int));
}

// ----- What is captured -----

/// A connection is captured when it is made, from its client to its server, at
/// the wall clock's microsecond.
pub proof fn law_connection_is_captured(s: StateView, now: Now, target: SocketAddr, i: int)
    requires
        s.tcp.len() + 1 <= usize::MAX,
    ensures
        ({
            let t = s.with_connection(now, target, i);
            let n = s.tcp.len() as int;
            match s.capture {
                Some(w) => t.capture == Some(
                    w.opened(
                        t.tcp[n]->0.local_addr,
                        t.tcp[n + 1]->0.local_addr,
                        now.wall@ / 1_000,
                    ),
                ),
                None => t.capture is None,
            }
        }),
{
}

/// Bytes that are written are captured as data from who writes to who reads, and
/// a write that is not taken is not captured.
pub proof fn law_written_bytes_are_captured(
    s: StateView,
    now: Now,
    id: usize,
    data: Seq<u8>,
    r: Result<WriteStep, crate::error::Error>,
    t: StateView,
)
    requires
        s.wf(),
        s.live(id),
        data.len() > 0,
        writes(s, now, id, data, r, t),
    ensures
        r matches Ok(WriteStep::Done(_)) ==> t.capture == match s.capture {
            Some(w) => Some(
                w.with_data(
                    s.conn(id).local_addr,
                    s.conn(id).peer_addr,
                    data,
                    now.wall@ / 1_000,
                ),
            ),
            None => None::<PcapView>,
        },
        !(r matches Ok(WriteStep::Done(_))) ==> t.capture == s.capture,
{
    lemma_peer(s, id);
}

/// What a test sends over TCP is captured as data from the sender that it gives
/// to the receiver; a reset as one from the peer of the end that is reset; the
/// loss of the last handle of an end as its close.
pub proof fn law_what_a_test_does_to_a_stream_is_captured(
    s: StateView,
    now: Now,
    from: SocketAddr,
    to: SocketAddr,
    data: Seq<u8>,
    id: usize,
    w: PcapView,
)
    requires
        s.wf(),
        s.tcp.len() <= usize::MAX,
        s.capture == Some(w),
    ensures
        s.with_tcp_sent(now, from, to, data).log.len() > s.log.len() ==> s.with_tcp_sent(
            now,
            from,
            to,
            data,
        ).capture == Some(w.with_data(from, to, data, now.wall@ / 1_000)),
        s.with_tcp_sent(now, from, to, data).log.len() == s.log.len() ==> s.with_tcp_sent(
            now,
            from,
            to,
            data,
        ).capture == Some(w),
        s.find_tcp(Which::At(to)) matches Some(k) ==> s.with_reset(now, to).capture == Some(
            w.with_rst(s.tcp[k]->0.peer_addr, to, now.wall@ / 1_000),
        ),
        s.live(id) && s.conn(id).refs == 1 && s.conn(id).peer is Some ==> s.with_stream_dropped(
            now,
            id,
        ).capture == Some(
            w.with_fin(s.conn(id).local_addr, s.conn(id).peer_addr, now.wall@ / 1_000),
        ),
        s.live(id) && (s.conn(id).refs > 1 || s.conn(id).peer is None) ==> s.with_stream_dropped(
            now,
            id,
        ).capture == Some(w),
{
    crate::exchange_laws::law_oldest_end_is_found(s.tcp, Which::At(to), 0);
}

/// A datagram is captured as often as it is delivered, and not at all where it is
/// lost; one that a socket sends is captured once.
pub proof fn law_datagrams_are_captured(
    s: StateView,
    now: Now,
    from: SocketAddr,
    to: SocketAddr,
    data: Seq<u8>,
    w: PcapView,
    i: int,
    p: crate::conn::PacketView,
)
    requires
        s.capture == Some(w),
        s.find_udp(to) == Some(i),
    ensures
        ({
            let t = s.with_udp_sent(now, from, to, data);
            let once = w.with_datagram(from, to, data, now.wall@ / 1_000);
            match t.log.last().event {
                crate::record::RecordedEvent::UdpSendFromTest { dropped, duplicated, .. } => {
                    &&& dropped ==> t.capture == Some(w)
                    &&& !dropped && !duplicated ==> t.capture == Some(once)
                    &&& !dropped && duplicated ==> t.capture == Some(
                        once.with_datagram(from, to, data, now.wall@ / 1_000),
                    )
                },
                _ => false,
            }
        }),
        s.with_udp_queued(now, to, p).capture == Some(
            w.with_datagram(p.source, p.dest, p.data, now.wall@ / 1_000),
        ),
{
}

// ----- Hardware addresses -----

/// The hash of a run of bytes is that of all but the last, multiplied by the
/// prime of its size and then folded with the last; that of none is the offset
/// basis.
pub proof fn law_hash_takes_one_byte_more(bytes: Seq<u8>, b: u8)
    ensures
        crate::pcapng::fnv(bytes.push(b)) ^ (b as u64) == crate::pcapng::fnv(bytes).wrapping_mul(
            0x100_0000_01b3,
        ),
        crate::pcapng::fnv(Seq::empty()) == 0xcbf2_9ce4_8422_2325,
{
    let h = crate::pcapng::fnv(bytes).wrapping_mul(0x100_0000_01b3);
    let c = b as u64;
    assert(bytes.push(b).drop_last() =~= bytes);
    assert((h ^ c) ^ c == h) by (bit_vector);
}

/// Of a socket's hardware address the first byte says that it is made up, and the
/// others are the middle ones of the hash of the socket's address and port.
pub proof fn law_hardware_address_is_hashed(addr: SocketAddr)
    ensures
        ({
            let h = crate::pcapng::fnv(
                addr.ip_part().octets() + be_bytes(addr.port_part() as nat, 2),
            );
            &&& mac(addr)[0] == 2
            &&& mac(addr).len() == 6
            &&& be_value(mac(addr).subrange(1, 6)) == (h / 256) % 0x100_0000_0000
        }),
{
    let h = crate::pcapng::fnv(addr.ip_part().octets() + be_bytes(addr.port_part() as nat, 2));
    let all = be_bytes(h as nat, 8);
    lemma_be_len(h as nat, 8);
    let low = be_bytes(h as nat / 256, 7);
    lemma_be_len(h as nat / 256, 7);
    assert(all.subrange(0, 7) =~= low);
    let five = be_bytes(h as nat / 256, 5);
    lemma_be_len(h as nat / 256, 5);
    lemma_low_bytes(h as nat / 256, 7, 5);
    assert(mac(addr).subrange(1, 6) =~= all.subrange(2, 7));
    assert(all.subrange(2, 7) =~= low.subrange(2, 7));
    lemma_value_of_low_bytes(h as nat / 256, 5);
    vstd::arithmetic::power::lemma_pow1(256);
    vstd::arithmetic::power::lemma_pow_adds(256, 1, 1);
    vstd::arithmetic::power::lemma_pow_adds(256, 2, 2);
    assert(0x1_0000int * 0x1_0000int == 0x1_0000_0000int);
    assert(vstd::arithmetic::power::pow(256, 4) == 0x1_0000_0000);
    vstd::arithmetic::power::lemma_pow_adds(256, 4, 1);
    assert(vstd::arithmetic::power::pow(256, 5) == 0x100_0000_0000);
}

/// The last bytes of a number's bytes are those that fewer would be.
proof fn lemma_low_bytes(v: nat, n: nat, m: nat)
    requires
        m <= n,
    ensures
        be_bytes(v, n).len() == n,
        be_bytes(v, n).subrange(n - m, n as int) == be_bytes(v, m),
    decreases m,
{
    lemma_be_len(v, n);
    lemma_be_len(v, m);
    if m > 0 {
        lemma_low_bytes(v / 256, (n - 1) as nat, (m - 1) as nat);
        lemma_be_len(v / 256, (n - 1) as nat);
        let a = be_bytes(v / 256, (n - 1) as nat);
        assert(be_bytes(v, n) == a.push((v % 256) as u8));
        assert(be_bytes(v, n).subrange(n - m, n as int) =~= a.subrange(n - m, n - 1).push(
            (v % 256) as u8,
        ));
    } else {
        assert(be_bytes(v, n).subrange(n - m, n as int) =~= be_bytes(v, m));
    }
}

/// Some bytes of a number hold it but for what they have no room for.
proof fn lemma_value_of_low_bytes(v: nat, n: nat)
    ensures
        be_value(be_bytes(v, n)) == v % (vstd::arithmetic::power::pow(256, n) as nat),
        vstd::arithmetic::power::pow(256, n) > 0,
    decreases n,
{
    vstd::arithmetic::power::lemma_pow0(256);
    vstd::arithmetic::power::lemma_pow_positive(256, n);
    lemma_be_len(v, n);
    if n > 0 {
        let m = (n - 1) as nat;
        lemma_value_of_low_bytes(v / 256, m);
        lemma_be_len(v / 256, m);
        assert(be_bytes(v, n).drop_last() =~= be_bytes(v / 256, m));
        vstd::arithmetic::power::lemma_pow_adds(256, 1, m);
        vstd::arithmetic::power::lemma_pow1(256);
        let p = vstd::arithmetic::power::pow(256, m);
        vstd::arithmetic::div_mod::lemma_mod_breakdown(v as int, 256, p);
    }
}

/// The first flow of a capture begins at the numbers one thousand and eleven
/// thousand, whoever its ends are.
pub proof fn law_first_flow_begins_at_its_numbers(src: SocketAddr, dst: SocketAddr)
    requires
        canon(src) != canon(dst),
    ensures
        ({
            let w = PcapView::fresh();
            let (p, q) = place(w.touched(src, dst), src, dst);
            &&& (p == 1_000 && q == 11_000) || (p == 11_000 && q == 1_000)
            &&& place(w.touched(src, dst), dst, src) == (q, p)
            &&& w.written == file_header()
            &&& w.handed == 0
        }),
{
    crate::pcapng::law_flow_key_is_symmetric(src, dst);
}

/// White space is what Unicode calls so.
pub proof fn law_white_space_is_unicodes(c: char)
    ensures
        crate::pcapng::white(c) <==> {
            let n = c as nat;
            ||| 9 <= n <= 13
            ||| n == 32 || n == 133 || n == 160 || n == 5760
            ||| 8192 <= n <= 8202
            ||| n == 8232 || n == 8233 || n == 8239 || n == 8287 || n == 12288
        },
{
}

/// A list of one name names that and nothing else, and an empty list names
/// nothing.
pub proof fn law_one_name_names_nothing_else(list: Seq<char>, name: Seq<char>)
    requires
        forall|k: int| 0 <= k < list.len() ==> #[trigger] list[k] != ',',
        list.len() > 0 ==> !crate::pcapng::white(list[0]) && !crate::pcapng::white(list.last()),
    ensures
        crate::pcapng::names(list, name) ==> name == list && list.len() > 0,
{
    if crate::pcapng::names(list, name) {
        let (from, to) = choose|from: int, to: int| #[trigger]
            crate::pcapng::between_commas(list, from, to) && crate::pcapng::trims_to(
                list,
                from,
                to,
                name,
            );
        if from > 0 {
            assert(list[from - 1] != ',');
        }
        if to < list.len() {
            assert(list[to] != ',');
        }
        assert(from == 0 && to == list.len());
        let a = choose|a: int|
            {
                &&& from <= a
                &&& a + name.len() <= to
                &&& #[trigger] list.subrange(a, a + name.len()) == name
                &&& forall|k: int| from <= k < a ==> crate::pcapng::white(#[trigger] list[k])
                &&& forall|k: int|
                    a + name.len() <= k < to ==> crate::pcapng::white(#[trigger] list[k])
                &&& name.len() > 0
                &&& !crate::pcapng::white(name[0])
                &&& !crate::pcapng::white(name.last())
            };
        if a > 0 {
            assert(crate::pcapng::white(list[0]));
        }
        if a + name.len() < to {
            assert(crate::pcapng::white(list[list.len() - 1]));
        }
        assert(name =~= list);
    }
}

} // verus!
