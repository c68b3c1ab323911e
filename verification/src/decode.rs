//! Frame decoding through etherparse.

use vstd::prelude::*;

use crate::frame::{DecodedFrame, IpHeaderInfo, TransportInfo};
use crate::ip::Ip;

verus! {

/// A frame whose link- or IP-layer structure contradicts its bytes: its
/// declared lengths do not fit the buffer, or header fields are out of
/// range. Distinct from a well-formed frame that merely carries no IP layer.
#[derive(Clone, Copy, Debug, PartialEq, Eq, Structural)]
pub struct DecodeError;

/// What decoding a raw frame yields. Decoding reads nothing but the frame
/// bytes, so its outcome is a function of them alone; the result is named
/// here rather than spelled out, since spelling it out would restate the
/// Ethernet, IPv4, IPv6 and TCP header layouts in full.
pub uninterp spec fn decode_of(data: Seq<u8>) -> Result<DecodedFrame, DecodeError>;

/// Relies on etherparse::PacketHeaders::from_ethernet_slice: it decodes one
/// Ethernet frame and the IP and transport headers below it, purely from the
/// given bytes, returning an error on a malformed or truncated frame. The
/// conversion keeps the IP source and destination, the address family, and
/// for TCP the reset flag; a frame with an unrecognized or non-IP network
/// layer (for instance ARP) maps to `ip: None`, a non-TCP transport to
/// `transport: None`.
#[verifier::external_body]
pub(crate) fn decode_frame(data: &[u8]) -> (r: Result<DecodedFrame, DecodeError>)
    ensures
        r == decode_of(data@),
{
    match etherparse::PacketHeaders::from_ethernet_slice(data) {
        Err(_) => Err(DecodeError),
        Ok(ph) => {
            let ip = match ph.net {
                Some(etherparse::NetHeaders::Ipv4(h, _)) => Some(IpHeaderInfo { src: Ip::V4(h.source), dst: Ip::V4(h.destination) }),
                Some(etherparse::NetHeaders::Ipv6(h, _)) => Some(IpHeaderInfo { src: Ip::V6(h.source), dst: Ip::V6(h.destination) }),
                _ => None,
            };
            let transport = match ph.transport {
                Some(etherparse::TransportHeader::Tcp(t)) => Some(TransportInfo { tcp_rst: t.rst }),
                _ => None,
            };
            Ok(DecodedFrame { ip, transport })
        },
    }
}

} // verus!
