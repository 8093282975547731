//! Hardware and network addresses as plain bytes, with their wire text.

use vstd::prelude::*;

use crate::bytes::{dec_text, format_u64, hex_byte, push_all, push_hex_byte};

verus! {

/// A six-byte hardware address.
#[derive(Clone, Copy, Debug, PartialEq, Eq)]
pub struct MacAddress {
    pub octets: [u8; 6],
}

impl View for MacAddress {
    type V = Seq<u8>;

    open spec fn view(&self) -> Seq<u8> {
        self.octets@
    }
}

/// A network-layer address: four bytes for version four, sixteen for
/// version six.
#[derive(Clone, Copy, Debug, PartialEq, Eq)]
pub enum IpAddress {
    V4([u8; 4]),
    V6([u8; 16]),
}

/// The mathematical shape of an [`IpAddress`].
pub enum IpView {
    V4(Seq<u8>),
    V6(Seq<u8>),
}

impl View for IpAddress {
    type V = IpView;

    open spec fn view(&self) -> IpView {
        match self {
            IpAddress::V4(a) => IpView::V4(a@),
            IpAddress::V6(a) => IpView::V6(a@),
        }
    }
}

/// The unspecified version-four address, the default when a frame
/// carries no routable network-layer header.
pub open spec fn unspecified_ip() -> IpView {
    IpView::V4(seq![0u8, 0u8, 0u8, 0u8])
}

/// The unspecified version-four address as a value.
pub fn unspecified_ip_value() -> (r: IpAddress)
    ensures
        r@ == unspecified_ip(),
{
    let a: [u8; 4] = [0, 0, 0, 0];
    proof {
        assert(a@ =~= seq![0u8, 0u8, 0u8, 0u8]);
    }
    IpAddress::V4(a)
}

// ---------------------------------------------------------------------
// Wire text
// ---------------------------------------------------------------------

/// Text of a hardware address: six lower-case hexadecimal byte pairs
/// joined by colons.
pub open spec fn mac_text(m: Seq<u8>) -> Seq<u8> {
    hex_byte(m[0]) + seq![58u8] + hex_byte(m[1]) + seq![58u8] + hex_byte(m[2]) + seq![58u8]
        + hex_byte(m[3]) + seq![58u8] + hex_byte(m[4]) + seq![58u8] + hex_byte(m[5])
}

/// Formats a hardware address.
pub fn format_mac(m: &MacAddress) -> (r: Vec<u8>)
    ensures
        r@ == mac_text(m@),
{
    let mut r: Vec<u8> = Vec::new();
    push_hex_byte(&mut r, m.octets[0]);
    r.push(58);
    push_hex_byte(&mut r, m.octets[1]);
    r.push(58);
    push_hex_byte(&mut r, m.octets[2]);
    r.push(58);
    push_hex_byte(&mut r, m.octets[3]);
    r.push(58);
    push_hex_byte(&mut r, m.octets[4]);
    r.push(58);
    push_hex_byte(&mut r, m.octets[5]);
    proof {
        assert(r@ =~= mac_text(m@));
    }
    r
}

/// Text of a version-four address: four decimal octets joined by dots.
pub open spec fn ipv4_text(a: Seq<u8>) -> Seq<u8> {
    dec_text(a[0] as nat) + seq![46u8] + dec_text(a[1] as nat) + seq![46u8] + dec_text(
        a[2] as nat,
    ) + seq![46u8] + dec_text(a[3] as nat)
}

/// Text of a version-six address: eight groups of four lower-case
/// hexadecimal digits joined by colons, never compressed.
pub open spec fn ipv6_text(a: Seq<u8>) -> Seq<u8> {
    hex_byte(a[0]) + hex_byte(a[1]) + seq![58u8] + hex_byte(a[2]) + hex_byte(a[3]) + seq![58u8]
        + hex_byte(a[4]) + hex_byte(a[5]) + seq![58u8] + hex_byte(a[6]) + hex_byte(a[7])
        + seq![58u8] + hex_byte(a[8]) + hex_byte(a[9]) + seq![58u8] + hex_byte(a[10]) + hex_byte(
        a[11],
    ) + seq![58u8] + hex_byte(a[12]) + hex_byte(a[13]) + seq![58u8] + hex_byte(a[14]) + hex_byte(
        a[15],
    )
}

/// Text of an address of either version.
pub open spec fn ip_text(ip: IpView) -> Seq<u8> {
    match ip {
        IpView::V4(a) => ipv4_text(a),
        IpView::V6(a) => ipv6_text(a),
    }
}

/// Formats a network address.
pub fn format_ip(ip: &IpAddress) -> (r: Vec<u8>)
    ensures
        r@ == ip_text(ip@),
{
    match ip {
        IpAddress::V4(a) => {
            let mut r = format_u64(a[0] as u64);
            r.push(46);
            let mut part = format_u64(a[1] as u64);
            push_all(&mut r, &part);
            r.push(46);
            part = format_u64(a[2] as u64);
            push_all(&mut r, &part);
            r.push(46);
            part = format_u64(a[3] as u64);
            push_all(&mut r, &part);
            proof {
                assert(r@ =~= ipv4_text(a@));
            }
            r
        },
        IpAddress::V6(a) => {
            let mut r: Vec<u8> = Vec::new();
            push_hex_byte(&mut r, a[0]);
            push_hex_byte(&mut r, a[1]);
            r.push(58);
            push_hex_byte(&mut r, a[2]);
            push_hex_byte(&mut r, a[3]);
            r.push(58);
            push_hex_byte(&mut r, a[4]);
            push_hex_byte(&mut r, a[5]);
            r.push(58);
            push_hex_byte(&mut r, a[6]);
            push_hex_byte(&mut r, a[7]);
            r.push(58);
            push_hex_byte(&mut r, a[8]);
            push_hex_byte(&mut r, a[9]);
            r.push(58);
            push_hex_byte(&mut r, a[10]);
            push_hex_byte(&mut r, a[11]);
            r.push(58);
            push_hex_byte(&mut r, a[12]);
            push_hex_byte(&mut r, a[13]);
            r.push(58);
            push_hex_byte(&mut r, a[14]);
            push_hex_byte(&mut r, a[15]);
            proof {
                assert(r@ =~= ipv6_text(a@));
            }
            r
        },
    }
}

} // verus!
