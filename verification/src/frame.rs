//! The decoded view of one captured frame, and the directed connection key.

use vstd::prelude::*;

use crate::ip::Ip;

verus! {

/// IP-layer endpoints of one frame: source and destination address.
/// The address family is carried by the `Ip` tag itself.
#[derive(Clone, Copy, Debug)]
pub struct IpHeaderInfo {
    pub src: Ip,
    pub dst: Ip,
}

/// Transport-layer descriptor. Present only for TCP segments; carries the
/// reset flag exactly as encoded in the segment.
#[derive(Clone, Copy, Debug)]
pub struct TransportInfo {
    pub tcp_rst: bool,
}

/// What frame decoding extracts from one raw frame.
///
/// `ip` is `None` when the frame carries no recognizable IP layer (an
/// expected outcome, not an error); `transport` is `None` when no transport
/// header was parsable or the transport is not TCP.
#[derive(Clone, Copy, Debug)]
pub struct DecodedFrame {
    pub ip: Option<IpHeaderInfo>,
    pub transport: Option<TransportInfo>,
}

/// A directed endpoint pair `(src, dst)`: the unit of aggregation.
/// `(A, B)` and `(B, A)` are distinct keys.
#[derive(Clone, Copy, Debug)]
pub struct PacketSrcDst {
    pub src: Ip,
    pub dst: Ip,
}

impl PacketSrcDst {
    /// Derives the connection key from an IP header: deterministic, total,
    /// preserving the declared address family and never normalizing across
    /// families.
    pub fn from_ip_header(h: IpHeaderInfo) -> (k: PacketSrcDst)
        ensures
            k == (PacketSrcDst { src: h.src, dst: h.dst }),
    {
        PacketSrcDst { src: h.src, dst: h.dst }
    }
}

impl PartialEq for PacketSrcDst {
    fn eq(&self, other: &PacketSrcDst) -> (r: bool)
        ensures
            r <==> *self == *other,
    {
        self.src == other.src && self.dst == other.dst
    }
}

impl Eq for PacketSrcDst {}

impl vstd::std_specs::cmp::PartialEqSpecImpl for PacketSrcDst {
    open spec fn obeys_eq_spec() -> bool {
        true
    }

    open spec fn eq_spec(&self, other: &PacketSrcDst) -> bool {
        *self == *other
    }
}

/// Whether the frame is a TCP segment with the reset flag set. Such frames
/// are answers from a scanned host, not attacker-initiated probes, and are
/// excluded from aggregation.
pub open spec fn is_reset(f: DecodedFrame) -> bool {
    f.transport matches Some(t) && t.tcp_rst
}

/// Whether the frame contributes to the aggregation table: it has a
/// decodable IP layer and is not a TCP reset.
pub open spec fn counted(f: DecodedFrame) -> bool {
    f.ip is Some && !is_reset(f)
}

/// The connection key of a frame with an IP layer.
pub open spec fn key_of(f: DecodedFrame) -> PacketSrcDst
    recommends
        f.ip is Some,
{
    PacketSrcDst { src: f.ip->Some_0.src, dst: f.ip->Some_0.dst }
}

} // verus!
