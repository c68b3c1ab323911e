//! The threshold reporter: the entries whose counter strictly exceeds the
//! alarm threshold, each renderable as one alert line.

use vstd::prelude::*;
use vstd::string::StringExecFns;

use crate::frame::PacketSrcDst;
use crate::ip::{dec_digits, dec_ip, dec_string, Ip};
use crate::table::AggregationTable;

verus! {

/// One flagged connection pair and its packet count.
#[derive(Clone, Copy, Debug)]
pub struct Alert {
    pub src: Ip,
    pub dst: Ip,
    pub count: u64,
}

impl Alert {
    /// The key this alert speaks of.
    pub open spec fn key(self) -> PacketSrcDst {
        PacketSrcDst { src: self.src, dst: self.dst }
    }

    /// Renders the alert as one human-readable line.
    pub fn line(&self) -> (s: String)
        ensures
            s@ == line_spec(*self),
    {
        let mut s = self.src.render();
        s.append(" may have attempted a port scan attack on ");
        let dst = self.dst.render();
        s.append(dst.as_str());
        s.append(" (");
        let count = dec_string(self.count);
        s.append(count.as_str());
        s.append(" packets sent).");
        proof {
            assert(s@ =~= line_spec(*self));
        }
        s
    }
}

/// The text of an alert line.
pub open spec fn line_spec(a: Alert) -> Seq<char> {
    dec_ip(a.src) + " may have attempted a port scan attack on "@ + dec_ip(a.dst) + " ("@
        + dec_digits(a.count as nat) + " packets sent)."@
}

/// What a correct report is: one alert, with the table's own count, for
/// exactly the keys whose counter strictly exceeds the threshold. A pair
/// whose count equals the threshold is never reported; one whose count is
/// threshold + 1 always is. The order of the alerts is left open.
pub open spec fn alerts_match(
    m: Map<PacketSrcDst, nat>,
    threshold: u32,
    alerts: Seq<Alert>,
) -> bool {
    &&& forall|i: int|
        0 <= i < alerts.len() ==> {
            &&& m.dom().contains((#[trigger] alerts[i]).key())
            &&& m[alerts[i].key()] > threshold as nat
            &&& alerts[i].count as nat == m[alerts[i].key()]
        }
    &&& forall|k: PacketSrcDst|
        m.dom().contains(k) && m[k] > threshold as nat ==> exists|i: int|
            0 <= i < alerts.len() && (#[trigger] alerts[i]).key() == k
    &&& forall|i: int, j: int|
        0 <= i < j < alerts.len() ==> (#[trigger] alerts[i]).key() != (#[trigger] alerts[j]).key()
}

/// Threshold strictness: under a correct report, a pair whose count equals
/// the threshold is never reported, and a pair whose count exceeds the
/// threshold, in particular by exactly one, always is.
pub proof fn lemma_threshold_strictness(
    m: Map<PacketSrcDst, nat>,
    threshold: u32,
    alerts: Seq<Alert>,
    k: PacketSrcDst,
)
    requires
        alerts_match(m, threshold, alerts),
        m.dom().contains(k),
    ensures
        m[k] == threshold as nat ==> !(exists|i: int|
            0 <= i < alerts.len() && (#[trigger] alerts[i]).key() == k),
        m[k] > threshold as nat ==> (exists|i: int|
            0 <= i < alerts.len() && (#[trigger] alerts[i]).key() == k),
{
    if m[k] == threshold as nat {
        if exists|i: int| 0 <= i < alerts.len() && (#[trigger] alerts[i]).key() == k {
            let i = choose|i: int| 0 <= i < alerts.len() && (#[trigger] alerts[i]).key() == k;
            assert(m[alerts[i].key()] > threshold as nat);
        }
    }
}

/// Yields the alerts of the finished aggregation: the entries whose counter
/// strictly exceeds `threshold`, one alert each, in the table's key order.
pub fn report(table: &AggregationTable, threshold: u32) -> (alerts: Vec<Alert>)
    requires
        table.wf(),
    ensures
        alerts_match(table@, threshold, alerts@),
{
    let ks = table.keys();
    let n = ks.len();
    let mut alerts: Vec<Alert> = Vec::new();
    for i in 0..n
        invariant
            n == ks@.len(),
            table.wf(),
            forall|i2: int, j2: int| 0 <= i2 < j2 < ks@.len() ==> ks@[i2] != ks@[j2],
            forall|i2: int| 0 <= i2 < ks@.len() ==> table@.dom().contains(#[trigger] ks@[i2]),
            forall|k: PacketSrcDst| #[trigger] table@.dom().contains(k) ==> ks@.contains(k),
            forall|j: int|
                0 <= j < alerts@.len() ==> {
                    &&& table@.dom().contains((#[trigger] alerts@[j]).key())
                    &&& table@[alerts@[j].key()] > threshold as nat
                    &&& alerts@[j].count as nat == table@[alerts@[j].key()]
                },
            forall|j: int|
                0 <= j < alerts@.len() ==> exists|i2: int|
                    0 <= i2 < i && (#[trigger] alerts@[j]).key() == ks@[i2],
            forall|i2: int|
                0 <= i2 < i && table@[#[trigger] ks@[i2]] > threshold as nat ==> exists|j: int|
                    0 <= j < alerts@.len() && (#[trigger] alerts@[j]).key() == ks@[i2],
            forall|j1: int, j2: int|
                0 <= j1 < j2 < alerts@.len() ==> (#[trigger] alerts@[j1]).key() != (
                #[trigger] alerts@[j2]).key(),
    {
        let k = ks[i];
        let c = table.count(&k);
        if c > threshold as u64 {
            let a = Alert { src: k.src, dst: k.dst, count: c };
            proof {
                assert(a.key() == ks@[i as int]);
                assert forall|j: int| 0 <= j < alerts@.len() implies (#[trigger] alerts@[j]).key()
                    != a.key() by {
                    let i2 = choose|i2: int|
                        0 <= i2 < i && (#[trigger] alerts@[j]).key() == ks@[i2];
                    assert(ks@[i2] != ks@[i as int]);
                }
            }
            let ghost prev = alerts@;
            alerts.push(a);
            proof {
                assert(alerts@ == prev.push(a));
                assert forall|i2: int|
                    0 <= i2 < i + 1 && table@[#[trigger] ks@[i2]] > threshold as nat implies exists|
                    j: int,
                |
                    0 <= j < alerts@.len() && (#[trigger] alerts@[j]).key() == ks@[i2] by {
                    if i2 < i {
                        let j = choose|j: int|
                            0 <= j < prev.len() && (#[trigger] prev[j]).key() == ks@[i2];
                        assert(alerts@[j].key() == ks@[i2]);
                    } else {
                        assert(alerts@[alerts@.len() - 1].key() == ks@[i2]);
                    }
                }
            }
        } else {
            proof {
                assert(table@.dom().contains(ks@[i as int]));
                assert(table@[ks@[i as int]] <= threshold as nat);
                assert forall|i2: int|
                    0 <= i2 < i + 1 && table@[#[trigger] ks@[i2]] > threshold as nat implies exists|
                    j: int,
                |
                    0 <= j < alerts@.len() && (#[trigger] alerts@[j]).key() == ks@[i2] by {
                    assert(i2 < i);
                }
            }
        }
    }
    proof {
        assert forall|k: PacketSrcDst|
            table@.dom().contains(k) && table@[k] > threshold as nat implies exists|j: int|
            0 <= j < alerts@.len() && (#[trigger] alerts@[j]).key() == k by {
            assert(ks@.contains(k));
            let i2 = choose|i2: int| 0 <= i2 < ks@.len() && ks@[i2] == k;
            assert(table@[ks@[i2]] > threshold as nat);
        }
    }
    alerts
}

} // verus!
