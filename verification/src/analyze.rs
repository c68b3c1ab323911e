//! The whole pass over a capture: decode every raw frame, aggregate, report.

use vstd::prelude::*;

use crate::aggregate::{aggregate, table_of};
use crate::decode::{decode_frame, decode_of};
use crate::frame::DecodedFrame;
use crate::report::{alerts_match, report, Alert};

verus! {

/// The frames a raw capture decodes to, in order: a malformed frame is
/// skipped and never aborts the pass.
pub open spec fn decoded_frames(raws: Seq<Seq<u8>>) -> Seq<DecodedFrame>
    decreases raws.len(),
{
    if raws.len() == 0 {
        Seq::empty()
    } else {
        let rest = decoded_frames(raws.drop_last());
        match decode_of(raws.last()) {
            Ok(f) => rest.push(f),
            Err(_) => rest,
        }
    }
}

/// Analyzes one finite capture: every raw frame is decoded and classified,
/// counters are accumulated per directed (source, destination) pair with
/// malformed, non-IP and TCP-reset frames skipped, and the pairs whose count
/// strictly exceeds `threshold` come back as alerts.
pub fn analyze(raw_frames: &Vec<Vec<u8>>, threshold: u32) -> (alerts: Vec<Alert>)
    ensures
        alerts_match(table_of(decoded_frames(raw_frames.deep_view())), threshold, alerts@),
{
    let n = raw_frames.len();
    let mut frames: Vec<DecodedFrame> = Vec::new();
    for i in 0..n
        invariant
            n == raw_frames@.len(),
            frames@ == decoded_frames(raw_frames.deep_view().take(i as int)),
    {
        proof {
            assert(raw_frames.deep_view().take(i + 1).drop_last() =~= raw_frames.deep_view().take(
                i as int,
            ));
            assert(raw_frames.deep_view().take(i + 1).last() == raw_frames@[i as int]@);
        }
        match decode_frame(raw_frames[i].as_slice()) {
            Ok(f) => frames.push(f),
            Err(_) => (),
        }
    }
    proof {
        assert(raw_frames.deep_view().take(n as int) =~= raw_frames.deep_view());
    }
    let table = aggregate(&frames);
    report(&table, threshold)
}

} // verus!
