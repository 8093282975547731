//! The normalized record one dissected frame produces.

use vstd::prelude::*;

use crate::addr::{IpAddress, MacAddress};
use crate::timestamp::Timestamp;

verus! {

/// The highest protocol layer a frame was recognized as, a fixed
/// enumeration.  `Unknown` stands for the empty label of a frame whose
/// type was not recognized.
#[derive(Clone, Copy, Debug, PartialEq, Eq, Structural)]
pub enum ProtocolLabel {
    Tcp,
    Udp,
    Icmp,
    Icmpv6,
    Hopopt,
    Arp,
    Unknown,
}

/// The stored text of a protocol label; empty for `Unknown`.
pub open spec fn label_text(p: ProtocolLabel) -> Seq<u8> {
    match p {
        ProtocolLabel::Tcp => seq![84u8, 67u8, 80u8],  // "TCP"
        ProtocolLabel::Udp => seq![85u8, 68u8, 80u8],  // "UDP"
        ProtocolLabel::Icmp => seq![73u8, 67u8, 77u8, 80u8],  // "ICMP"
        ProtocolLabel::Icmpv6 => seq![73u8, 67u8, 77u8, 80u8, 118u8, 54u8],  // "ICMPv6"
        ProtocolLabel::Hopopt => seq![72u8, 79u8, 80u8, 79u8, 80u8, 84u8],  // "HOPOPT"
        ProtocolLabel::Arp => seq![65u8, 82u8, 80u8],  // "ARP"
        ProtocolLabel::Unknown => Seq::empty(),
    }
}

/// Formats a protocol label as its stored text.
pub fn format_label(p: ProtocolLabel) -> (r: Vec<u8>)
    ensures
        r@ == label_text(p),
{
    let bytes: Vec<u8> = match p {
        ProtocolLabel::Tcp => vec![84u8, 67u8, 80u8],
        ProtocolLabel::Udp => vec![85u8, 68u8, 80u8],
        ProtocolLabel::Icmp => vec![73u8, 67u8, 77u8, 80u8],
        ProtocolLabel::Icmpv6 => vec![73u8, 67u8, 77u8, 80u8, 118u8, 54u8],
        ProtocolLabel::Hopopt => vec![72u8, 79u8, 80u8, 79u8, 80u8, 84u8],
        ProtocolLabel::Arp => vec![65u8, 82u8, 80u8],
        ProtocolLabel::Unknown => Vec::new(),
    };
    proof {
        assert(bytes@ =~= label_text(p));
    }
    bytes
}

/// The critical data within a single captured frame, as plain values.
pub struct PacketStruct {
    pub number: u64,
    pub time: Timestamp,
    pub protocol: ProtocolLabel,
    pub source_mac: MacAddress,
    pub source_ip: IpAddress,
    pub source_port: u16,
    pub dest_mac: MacAddress,
    pub dest_ip: IpAddress,
    pub dest_port: u16,
    pub length: usize,
    pub payload: Vec<u8>,
}

impl PacketStruct {
    /// Collects all fields of one record.
    pub fn new(
        number: u64,
        time: Timestamp,
        protocol: ProtocolLabel,
        source_mac: MacAddress,
        source_ip: IpAddress,
        source_port: u16,
        dest_mac: MacAddress,
        dest_ip: IpAddress,
        dest_port: u16,
        length: usize,
        payload: Vec<u8>,
    ) -> (r: Self)
        ensures
            r.number == number,
            r.time == time,
            r.protocol == protocol,
            r.source_mac == source_mac,
            r.source_ip == source_ip,
            r.source_port == source_port,
            r.dest_mac == dest_mac,
            r.dest_ip == dest_ip,
            r.dest_port == dest_port,
            r.length == length,
            r.payload == payload,
    {
        PacketStruct {
            number,
            time,
            protocol,
            source_mac,
            source_ip,
            source_port,
            dest_mac,
            dest_ip,
            dest_port,
            length,
            payload,
        }
    }
}

} // verus!
