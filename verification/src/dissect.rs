//! The protocol dissector: a total function from a raw link-layer frame
//! to a normalized record.
//!
//! Dissection is a two-level demultiplexing over the frame bytes: the
//! link layer yields hardware addresses and an ether type; the network
//! layer (version four, version six, or address resolution) yields
//! network addresses and a next-protocol value; the transport layer
//! yields ports.  Dissection never fails: an unrecognized type or a
//! header too short for its declared fields leaves the corresponding
//! fields at their defaults and dissection continues with what it has.
//!
//! Deliberate policies, stated once here:
//! - every byte after the network header is taken as the transport
//!   candidate; the version-four total-length field is not consulted;
//! - the version-six destination address is the one the header
//!   declares, never a copy of the source address;
//! - the hop-by-hop next-protocol value is recognized in both network
//!   contexts;
//! - the record payload is what follows the highest successfully
//!   parsed header, and the whole remaining frame after an
//!   unrecognized ether type.

use vstd::prelude::*;

use crate::addr::{unspecified_ip, unspecified_ip_value, IpAddress, IpView, MacAddress};
use crate::bytes::{be16, read_be16, slice_range};
use crate::record::{PacketStruct, ProtocolLabel};
use crate::timestamp::Timestamp;

verus! {

pub const ETHERTYPE_IPV4: u16 = 0x0800;

pub const ETHERTYPE_ARP: u16 = 0x0806;

pub const ETHERTYPE_IPV6: u16 = 0x86DD;

pub const IP_PROTO_HOPOPT: u8 = 0;

pub const IP_PROTO_ICMP: u8 = 1;

pub const IP_PROTO_TCP: u8 = 6;

pub const IP_PROTO_UDP: u8 = 17;

pub const IP_PROTO_ICMPV6: u8 = 58;

// ---------------------------------------------------------------------
// The frame grammar
// ---------------------------------------------------------------------

/// The frame holds a full link-layer header.
pub open spec fn has_ethernet(f: Seq<u8>) -> bool {
    f.len() >= 14
}

/// Destination hardware address of the link-layer header.
pub open spec fn eth_dest(f: Seq<u8>) -> Seq<u8> {
    f.subrange(0, 6)
}

/// Source hardware address of the link-layer header.
pub open spec fn eth_source(f: Seq<u8>) -> Seq<u8> {
    f.subrange(6, 12)
}

/// The ether type tag of the link-layer header.
pub open spec fn eth_type(f: Seq<u8>) -> u16 {
    be16(f[12], f[13])
}

/// The bytes following the link-layer header.
pub open spec fn eth_payload(f: Seq<u8>) -> Seq<u8> {
    f.skip(14)
}

/// The network bytes hold a full fixed version-four header.
pub open spec fn ipv4_has_header(p: Seq<u8>) -> bool {
    p.len() >= 20
}

/// Declared version-four header length in bytes: four times the low
/// nibble of the first byte.
pub open spec fn ipv4_header_len(p: Seq<u8>) -> int {
    (p[0] % 16) * 4
}

/// Source address of the version-four header.
pub open spec fn ipv4_source(p: Seq<u8>) -> Seq<u8> {
    p.subrange(12, 16)
}

/// Destination address of the version-four header.
pub open spec fn ipv4_dest(p: Seq<u8>) -> Seq<u8> {
    p.subrange(16, 20)
}

/// Next-protocol value of the version-four header.
pub open spec fn ipv4_protocol(p: Seq<u8>) -> u8 {
    p[9]
}

/// The transport candidate after the version-four header: the bytes
/// after the declared header length, or nothing when that length is
/// malformed (below twenty) or runs past the frame.
pub open spec fn ipv4_rest(p: Seq<u8>) -> Seq<u8> {
    if 20 <= ipv4_header_len(p) <= p.len() {
        p.skip(ipv4_header_len(p))
    } else {
        Seq::empty()
    }
}

/// The network bytes hold a full version-six header.
pub open spec fn ipv6_has_header(p: Seq<u8>) -> bool {
    p.len() >= 40
}

/// Next-header value of the version-six header.
pub open spec fn ipv6_next_header(p: Seq<u8>) -> u8 {
    p[6]
}

/// Source address of the version-six header.
pub open spec fn ipv6_source(p: Seq<u8>) -> Seq<u8> {
    p.subrange(8, 24)
}

/// Destination address of the version-six header.
pub open spec fn ipv6_dest(p: Seq<u8>) -> Seq<u8> {
    p.subrange(24, 40)
}

/// The transport candidate after the fixed version-six header.
pub open spec fn ipv6_rest(p: Seq<u8>) -> Seq<u8> {
    p.skip(40)
}

/// The network bytes hold a full address-resolution message.
pub open spec fn arp_has_body(p: Seq<u8>) -> bool {
    p.len() >= 28
}

/// The transport candidate holds a full fixed transport header for the
/// connection-oriented protocol.
pub open spec fn tcp_has_header(t: Seq<u8>) -> bool {
    t.len() >= 20
}

/// Declared data offset of the connection-oriented header, in bytes.
pub open spec fn tcp_data_offset(t: Seq<u8>) -> int {
    (t[12] / 16) * 4
}

/// Payload of the connection-oriented header: the bytes after the
/// declared data offset, or nothing when that offset is malformed.
pub open spec fn tcp_payload(t: Seq<u8>) -> Seq<u8> {
    if 20 <= tcp_data_offset(t) <= t.len() {
        t.skip(tcp_data_offset(t))
    } else {
        Seq::empty()
    }
}

/// The transport candidate holds a full datagram header.
pub open spec fn udp_has_header(t: Seq<u8>) -> bool {
    t.len() >= 8
}

// ---------------------------------------------------------------------
// What dissection returns
// ---------------------------------------------------------------------

/// The network and transport fields a dissected frame yields.
#[verifier::ext_equal]
pub struct FrameFields {
    pub source_mac: Seq<u8>,
    pub dest_mac: Seq<u8>,
    pub source_ip: IpView,
    pub dest_ip: IpView,
    pub source_port: u16,
    pub dest_port: u16,
    pub protocol: ProtocolLabel,
    pub payload: Seq<u8>,
}

/// The transport-level part of the dissection result.
#[verifier::ext_equal]
pub struct TransportFields {
    pub source_port: u16,
    pub dest_port: u16,
    pub protocol: ProtocolLabel,
    pub payload: Seq<u8>,
}

/// Transport dispatch on the next-protocol value.  The two echo
/// protocols are tied to their network context; ports default to zero
/// for portless or unrecognized values, and the candidate bytes stay as
/// the payload.
pub open spec fn spec_transport(proto: u8, t: Seq<u8>, v4_context: bool) -> TransportFields {
    if proto == IP_PROTO_TCP && tcp_has_header(t) {
        TransportFields {
            source_port: be16(t[0], t[1]),
            dest_port: be16(t[2], t[3]),
            protocol: ProtocolLabel::Tcp,
            payload: tcp_payload(t),
        }
    } else if proto == IP_PROTO_UDP && udp_has_header(t) {
        TransportFields {
            source_port: be16(t[0], t[1]),
            dest_port: be16(t[2], t[3]),
            protocol: ProtocolLabel::Udp,
            payload: t.skip(8),
        }
    } else if proto == IP_PROTO_ICMP && v4_context {
        TransportFields { source_port: 0, dest_port: 0, protocol: ProtocolLabel::Icmp, payload: t }
    } else if proto == IP_PROTO_ICMPV6 && !v4_context {
        TransportFields {
            source_port: 0,
            dest_port: 0,
            protocol: ProtocolLabel::Icmpv6,
            payload: t,
        }
    } else if proto == IP_PROTO_HOPOPT {
        TransportFields {
            source_port: 0,
            dest_port: 0,
            protocol: ProtocolLabel::Hopopt,
            payload: t,
        }
    } else {
        TransportFields {
            source_port: 0,
            dest_port: 0,
            protocol: ProtocolLabel::Unknown,
            payload: t,
        }
    }
}

/// The default hardware address of a frame too short to carry one.
pub open spec fn zero_mac_bytes() -> Seq<u8> {
    seq![0u8, 0u8, 0u8, 0u8, 0u8, 0u8]
}

/// What dissection extracts from a frame.  Total: every frame, however
/// short or strange, maps to a value.
pub open spec fn spec_dissect(f: Seq<u8>) -> FrameFields {
    if !has_ethernet(f) {
        FrameFields {
            source_mac: zero_mac_bytes(),
            dest_mac: zero_mac_bytes(),
            source_ip: unspecified_ip(),
            dest_ip: unspecified_ip(),
            source_port: 0,
            dest_port: 0,
            protocol: ProtocolLabel::Unknown,
            payload: Seq::empty(),
        }
    } else {
        let p = eth_payload(f);
        if eth_type(f) == ETHERTYPE_IPV4 && ipv4_has_header(p) {
            let tr = spec_transport(ipv4_protocol(p), ipv4_rest(p), true);
            FrameFields {
                source_mac: eth_source(f),
                dest_mac: eth_dest(f),
                source_ip: IpView::V4(ipv4_source(p)),
                dest_ip: IpView::V4(ipv4_dest(p)),
                source_port: tr.source_port,
                dest_port: tr.dest_port,
                protocol: tr.protocol,
                payload: tr.payload,
            }
        } else if eth_type(f) == ETHERTYPE_IPV6 && ipv6_has_header(p) {
            let tr = spec_transport(ipv6_next_header(p), ipv6_rest(p), false);
            FrameFields {
                source_mac: eth_source(f),
                dest_mac: eth_dest(f),
                source_ip: IpView::V6(ipv6_source(p)),
                dest_ip: IpView::V6(ipv6_dest(p)),
                source_port: tr.source_port,
                dest_port: tr.dest_port,
                protocol: tr.protocol,
                payload: tr.payload,
            }
        } else if eth_type(f) == ETHERTYPE_ARP && arp_has_body(p) {
            FrameFields {
                source_mac: eth_source(f),
                dest_mac: eth_dest(f),
                source_ip: unspecified_ip(),
                dest_ip: unspecified_ip(),
                source_port: 0,
                dest_port: 0,
                protocol: ProtocolLabel::Arp,
                payload: p.skip(28),
            }
        } else {
            FrameFields {
                source_mac: eth_source(f),
                dest_mac: eth_dest(f),
                source_ip: unspecified_ip(),
                dest_ip: unspecified_ip(),
                source_port: 0,
                dest_port: 0,
                protocol: ProtocolLabel::Unknown,
                payload: p,
            }
        }
    }
}

/// The dissection-derived fields of a record.
pub open spec fn record_fields(r: PacketStruct) -> FrameFields {
    FrameFields {
        source_mac: r.source_mac@,
        dest_mac: r.dest_mac@,
        source_ip: r.source_ip@,
        dest_ip: r.dest_ip@,
        source_port: r.source_port,
        dest_port: r.dest_port,
        protocol: r.protocol,
        payload: r.payload@,
    }
}

// ---------------------------------------------------------------------
// The dissector
// ---------------------------------------------------------------------

/// Reads the six address bytes at `at`.
fn mac_at(frame: &Vec<u8>, at: usize) -> (r: MacAddress)
    requires
        at + 6 <= frame@.len(),
    ensures
        r@ == frame@.subrange(at as int, at + 6),
{
    let _len = frame.len();  // the length fits in usize, so indices below it do too
    let octets: [u8; 6] = [
        frame[at],
        frame[at + 1],
        frame[at + 2],
        frame[at + 3],
        frame[at + 4],
        frame[at + 5],
    ];
    proof {
        assert(octets@ =~= frame@.subrange(at as int, at + 6));
    }
    MacAddress { octets }
}

/// Transport dispatch over the candidate bytes.
fn parse_transport(proto: u8, t: Vec<u8>, v4_context: bool) -> (r: (u16, u16, ProtocolLabel, Vec<
    u8,
>))
    ensures
        ({
            let tr = spec_transport(proto, t@, v4_context);
            r.0 == tr.source_port && r.1 == tr.dest_port && r.2 == tr.protocol && r.3@
                == tr.payload
        }),
{
    if proto == IP_PROTO_TCP && t.len() >= 20 {
        let source_port = read_be16(&t, 0);
        let dest_port = read_be16(&t, 2);
        let offset = ((t[12] / 16) as usize) * 4;
        let payload: Vec<u8> = if offset >= 20 && offset <= t.len() {
            slice_range(&t, offset, t.len())
        } else {
            Vec::new()
        };
        proof {
            assert(payload@ =~= tcp_payload(t@));
        }
        (source_port, dest_port, ProtocolLabel::Tcp, payload)
    } else if proto == IP_PROTO_UDP && t.len() >= 8 {
        let source_port = read_be16(&t, 0);
        let dest_port = read_be16(&t, 2);
        let payload = slice_range(&t, 8, t.len());
        proof {
            assert(payload@ =~= t@.skip(8));
        }
        (source_port, dest_port, ProtocolLabel::Udp, payload)
    } else if proto == IP_PROTO_ICMP && v4_context {
        (0, 0, ProtocolLabel::Icmp, t)
    } else if proto == IP_PROTO_ICMPV6 && !v4_context {
        (0, 0, ProtocolLabel::Icmpv6, t)
    } else if proto == IP_PROTO_HOPOPT {
        (0, 0, ProtocolLabel::Hopopt, t)
    } else {
        (0, 0, ProtocolLabel::Unknown, t)
    }
}

/// Dissects one raw frame into a record.
///
/// Never fails and never rejects a frame: the caller-assigned sequence
/// number, the capture-time timestamp and the frame length are always
/// recorded, and the remaining fields are exactly what the frame's
/// recognized headers declare, with documented defaults elsewhere.
pub fn parse_packet(frame: &Vec<u8>, number: u64, time: Timestamp) -> (r: PacketStruct)
    ensures
        r.number == number,
        r.time == time,
        r.length == frame@.len(),
        record_fields(r) == spec_dissect(frame@),
{
    let len = frame.len();
    if len < 14 {
        let r = PacketStruct::new(
            number,
            time,
            ProtocolLabel::Unknown,
            zero_mac(),
            unspecified_ip_value(),
            0,
            zero_mac(),
            unspecified_ip_value(),
            0,
            len,
            Vec::new(),
        );
        proof {
            assert(record_fields(r) =~= spec_dissect(frame@));
        }
        return r;
    }
    let source_mac = mac_at(frame, 6);
    let dest_mac = mac_at(frame, 0);
    let ethertype = read_be16(frame, 12);
    let p = slice_range(frame, 14, len);
    proof {
        assert(p@ =~= eth_payload(frame@));
    }
    if ethertype == ETHERTYPE_IPV4 && p.len() >= 20 {
        let plen = p.len();
        let source_ip = IpAddress::V4([p[12], p[13], p[14], p[15]]);
        let dest_ip = IpAddress::V4([p[16], p[17], p[18], p[19]]);
        let proto = p[9];
        let header_len = ((p[0] % 16) as usize) * 4;
        let t: Vec<u8> = if header_len >= 20 && header_len <= plen {
            slice_range(&p, header_len, plen)
        } else {
            Vec::new()
        };
        proof {
            assert(source_ip@->V4_0 =~= ipv4_source(p@));
            assert(dest_ip@->V4_0 =~= ipv4_dest(p@));
            assert(t@ =~= ipv4_rest(p@));
        }
        let (source_port, dest_port, protocol, payload) = parse_transport(proto, t, true);
        let r = PacketStruct::new(
            number,
            time,
            protocol,
            source_mac,
            source_ip,
            source_port,
            dest_mac,
            dest_ip,
            dest_port,
            len,
            payload,
        );
        proof {
            assert(record_fields(r) =~= spec_dissect(frame@));
        }
        r
    } else if ethertype == ETHERTYPE_IPV6 && p.len() >= 40 {
        let plen = p.len();
        let source_ip = IpAddress::V6(
            [
                p[8],
                p[9],
                p[10],
                p[11],
                p[12],
                p[13],
                p[14],
                p[15],
                p[16],
                p[17],
                p[18],
                p[19],
                p[20],
                p[21],
                p[22],
                p[23],
            ],
        );
        let dest_ip = IpAddress::V6(
            [
                p[24],
                p[25],
                p[26],
                p[27],
                p[28],
                p[29],
                p[30],
                p[31],
                p[32],
                p[33],
                p[34],
                p[35],
                p[36],
                p[37],
                p[38],
                p[39],
            ],
        );
        let next = p[6];
        let t = slice_range(&p, 40, plen);
        proof {
            assert(source_ip@->V6_0 =~= ipv6_source(p@));
            assert(dest_ip@->V6_0 =~= ipv6_dest(p@));
            assert(t@ =~= ipv6_rest(p@));
        }
        let (source_port, dest_port, protocol, payload) = parse_transport(next, t, false);
        let r = PacketStruct::new(
            number,
            time,
            protocol,
            source_mac,
            source_ip,
            source_port,
            dest_mac,
            dest_ip,
            dest_port,
            len,
            payload,
        );
        proof {
            assert(record_fields(r) =~= spec_dissect(frame@));
        }
        r
    } else if ethertype == ETHERTYPE_ARP && p.len() >= 28 {
        let plen = p.len();
        let payload = slice_range(&p, 28, plen);
        proof {
            assert(payload@ =~= eth_payload(frame@).skip(28));
        }
        let r = PacketStruct::new(
            number,
            time,
            ProtocolLabel::Arp,
            source_mac,
            unspecified_ip_value(),
            0,
            dest_mac,
            unspecified_ip_value(),
            0,
            len,
            payload,
        );
        proof {
            assert(record_fields(r) =~= spec_dissect(frame@));
        }
        r
    } else {
        let r = PacketStruct::new(
            number,
            time,
            ProtocolLabel::Unknown,
            source_mac,
            unspecified_ip_value(),
            0,
            dest_mac,
            unspecified_ip_value(),
            0,
            len,
            p,
        );
        proof {
            assert(record_fields(r) =~= spec_dissect(frame@));
        }
        r
    }
}

/// A zeroed hardware address.
fn zero_mac() -> (r: MacAddress)
    ensures
        r@ == zero_mac_bytes(),
{
    let octets: [u8; 6] = [0, 0, 0, 0, 0, 0];
    proof {
        assert(octets@ =~= zero_mac_bytes());
    }
    MacAddress { octets }
}

// ---------------------------------------------------------------------
// Laws of dissection
// ---------------------------------------------------------------------

/// A recognized version-four frame with a well-formed embedded
/// connection-oriented header dissects to exactly the declared
/// hardware addresses, network addresses and ports.
pub proof fn lemma_dissect_ipv4_tcp(f: Seq<u8>)
    requires
        has_ethernet(f),
        eth_type(f) == ETHERTYPE_IPV4,
        ipv4_has_header(eth_payload(f)),
        ipv4_protocol(eth_payload(f)) == IP_PROTO_TCP,
        tcp_has_header(ipv4_rest(eth_payload(f))),
    ensures
        ({
            let p = eth_payload(f);
            let t = ipv4_rest(p);
            spec_dissect(f) == (FrameFields {
                source_mac: eth_source(f),
                dest_mac: eth_dest(f),
                source_ip: IpView::V4(ipv4_source(p)),
                dest_ip: IpView::V4(ipv4_dest(p)),
                source_port: be16(t[0], t[1]),
                dest_port: be16(t[2], t[3]),
                protocol: ProtocolLabel::Tcp,
                payload: tcp_payload(t),
            })
        }),
{
}

/// A recognized version-four frame with a well-formed embedded
/// datagram header dissects to exactly the declared addresses and
/// ports.
pub proof fn lemma_dissect_ipv4_udp(f: Seq<u8>)
    requires
        has_ethernet(f),
        eth_type(f) == ETHERTYPE_IPV4,
        ipv4_has_header(eth_payload(f)),
        ipv4_protocol(eth_payload(f)) == IP_PROTO_UDP,
        udp_has_header(ipv4_rest(eth_payload(f))),
    ensures
        ({
            let p = eth_payload(f);
            let t = ipv4_rest(p);
            spec_dissect(f) == (FrameFields {
                source_mac: eth_source(f),
                dest_mac: eth_dest(f),
                source_ip: IpView::V4(ipv4_source(p)),
                dest_ip: IpView::V4(ipv4_dest(p)),
                source_port: be16(t[0], t[1]),
                dest_port: be16(t[2], t[3]),
                protocol: ProtocolLabel::Udp,
                payload: t.skip(8),
            })
        }),
{
}

/// A recognized version-six frame with a well-formed embedded datagram
/// header dissects to exactly the declared addresses and ports; in
/// particular the destination address is the declared destination.
pub proof fn lemma_dissect_ipv6_udp(f: Seq<u8>)
    requires
        has_ethernet(f),
        eth_type(f) == ETHERTYPE_IPV6,
        ipv6_has_header(eth_payload(f)),
        ipv6_next_header(eth_payload(f)) == IP_PROTO_UDP,
        udp_has_header(ipv6_rest(eth_payload(f))),
    ensures
        ({
            let p = eth_payload(f);
            let t = ipv6_rest(p);
            spec_dissect(f) == (FrameFields {
                source_mac: eth_source(f),
                dest_mac: eth_dest(f),
                source_ip: IpView::V6(ipv6_source(p)),
                dest_ip: IpView::V6(ipv6_dest(p)),
                source_port: be16(t[0], t[1]),
                dest_port: be16(t[2], t[3]),
                protocol: ProtocolLabel::Udp,
                payload: t.skip(8),
            })
        }),
{
}

/// A well-formed address-resolution frame dissects to its hardware
/// addresses and label, with default network and transport fields.
pub proof fn lemma_dissect_arp(f: Seq<u8>)
    requires
        has_ethernet(f),
        eth_type(f) == ETHERTYPE_ARP,
        arp_has_body(eth_payload(f)),
    ensures
        spec_dissect(f) == (FrameFields {
            source_mac: eth_source(f),
            dest_mac: eth_dest(f),
            source_ip: unspecified_ip(),
            dest_ip: unspecified_ip(),
            source_port: 0,
            dest_port: 0,
            protocol: ProtocolLabel::Arp,
            payload: eth_payload(f).skip(28),
        }),
{
}

/// A frame with an unrecognized ether type dissects to a record with
/// default network and transport fields; only the hardware addresses
/// and the remaining bytes are kept.  Dissection is total, so no frame
/// is ever rejected.
pub proof fn lemma_dissect_unrecognized_ether(f: Seq<u8>)
    requires
        has_ethernet(f),
        eth_type(f) != ETHERTYPE_IPV4,
        eth_type(f) != ETHERTYPE_IPV6,
        eth_type(f) != ETHERTYPE_ARP,
    ensures
        spec_dissect(f) == (FrameFields {
            source_mac: eth_source(f),
            dest_mac: eth_dest(f),
            source_ip: unspecified_ip(),
            dest_ip: unspecified_ip(),
            source_port: 0,
            dest_port: 0,
            protocol: ProtocolLabel::Unknown,
            payload: eth_payload(f),
        }),
{
}

/// A recognized version-four frame with an unrecognized next-protocol
/// value keeps its addresses but dissects to default transport fields
/// and an empty label.
pub proof fn lemma_dissect_unrecognized_protocol(f: Seq<u8>)
    requires
        has_ethernet(f),
        eth_type(f) == ETHERTYPE_IPV4,
        ipv4_has_header(eth_payload(f)),
        ipv4_protocol(eth_payload(f)) != IP_PROTO_TCP,
        ipv4_protocol(eth_payload(f)) != IP_PROTO_UDP,
        ipv4_protocol(eth_payload(f)) != IP_PROTO_ICMP,
        ipv4_protocol(eth_payload(f)) != IP_PROTO_HOPOPT,
    ensures
        ({
            let p = eth_payload(f);
            spec_dissect(f) == (FrameFields {
                source_mac: eth_source(f),
                dest_mac: eth_dest(f),
                source_ip: IpView::V4(ipv4_source(p)),
                dest_ip: IpView::V4(ipv4_dest(p)),
                source_port: 0,
                dest_port: 0,
                protocol: ProtocolLabel::Unknown,
                payload: ipv4_rest(p),
            })
        }),
{
}

/// A frame too short for a link-layer header dissects to all defaults.
pub proof fn lemma_dissect_short(f: Seq<u8>)
    requires
        !has_ethernet(f),
    ensures
        spec_dissect(f) == (FrameFields {
            source_mac: zero_mac_bytes(),
            dest_mac: zero_mac_bytes(),
            source_ip: unspecified_ip(),
            dest_ip: unspecified_ip(),
            source_port: 0,
            dest_port: 0,
            protocol: ProtocolLabel::Unknown,
            payload: Seq::empty(),
        }),
{
}

} // verus!
