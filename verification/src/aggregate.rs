//! Building the aggregation table by a single forward scan over the decoded
//! frames, and the laws the scan obeys.

use vstd::prelude::*;

use crate::frame::{counted, is_reset, key_of, DecodedFrame, PacketSrcDst};
use crate::table::{bump, AggregationTable};

verus! {

/// The table a forward scan over `frames` builds: frames without an IP layer
/// and TCP resets are skipped, every other frame raises its key's counter.
pub open spec fn table_of(frames: Seq<DecodedFrame>) -> Map<PacketSrcDst, nat>
    decreases frames.len(),
{
    if frames.len() == 0 {
        Map::empty()
    } else {
        let m = table_of(frames.drop_last());
        if counted(frames.last()) {
            bump(m, key_of(frames.last()))
        } else {
            m
        }
    }
}

/// How many frames of `frames` are counted under key `k`.
pub open spec fn key_count(frames: Seq<DecodedFrame>, k: PacketSrcDst) -> nat
    decreases frames.len(),
{
    if frames.len() == 0 {
        0nat
    } else {
        key_count(frames.drop_last(), k) + (if counted(frames.last()) && key_of(frames.last())
            == k {
            1nat
        } else {
            0nat
        })
    }
}

/// The table sends each key to the number of counted frames carrying it.
pub proof fn lemma_table_of_key_count(frames: Seq<DecodedFrame>, k: PacketSrcDst)
    ensures
        table_of(frames).dom().contains(k) <==> key_count(frames, k) > 0,
        table_of(frames).dom().contains(k) ==> table_of(frames)[k] == key_count(frames, k),
    decreases frames.len(),
{
    if frames.len() > 0 {
        lemma_table_of_key_count(frames.drop_last(), k);
    }
}

/// No key counts more frames than the stream holds.
proof fn lemma_key_count_le_len(frames: Seq<DecodedFrame>, k: PacketSrcDst)
    ensures
        key_count(frames, k) <= frames.len(),
    decreases frames.len(),
{
    if frames.len() > 0 {
        lemma_key_count_le_len(frames.drop_last(), k);
    }
}

/// Per-key counting splits over concatenation.
proof fn lemma_key_count_add(s1: Seq<DecodedFrame>, s2: Seq<DecodedFrame>, k: PacketSrcDst)
    ensures
        key_count(s1 + s2, k) == key_count(s1, k) + key_count(s2, k),
    decreases s2.len(),
{
    if s2.len() == 0 {
        assert(s1 + s2 =~= s1);
    } else {
        lemma_key_count_add(s1, s2.drop_last(), k);
        assert((s1 + s2).drop_last() =~= s1 + s2.drop_last());
        assert((s1 + s2).last() == s2.last());
    }
}

/// Removing one frame removes exactly its own contribution to each key.
proof fn lemma_key_count_remove(frames: Seq<DecodedFrame>, i: int, k: PacketSrcDst)
    requires
        0 <= i < frames.len(),
    ensures
        key_count(frames, k) == key_count(frames.remove(i), k) + (if counted(frames[i])
            && key_of(frames[i]) == k {
            1nat
        } else {
            0nat
        }),
{
    let left = frames.subrange(0, i);
    let mid = seq![frames[i]];
    let right = frames.subrange(i + 1, frames.len() as int);
    assert(frames =~= (left + mid) + right);
    assert(frames.remove(i) =~= left + right);
    lemma_key_count_add(left + mid, right, k);
    lemma_key_count_add(left, mid, k);
    lemma_key_count_add(left, right, k);
    assert(mid.last() == frames[i]);
    assert(mid.drop_last() =~= Seq::<DecodedFrame>::empty());
    assert(key_count(mid.drop_last(), k) == 0);
    assert(key_count(mid, k) == (if counted(frames[i]) && key_of(frames[i]) == k {
        1nat
    } else {
        0nat
    }));
}

/// Streams holding the same frames, in any order, count every key alike.
proof fn lemma_key_count_permutation(s1: Seq<DecodedFrame>, s2: Seq<DecodedFrame>, k: PacketSrcDst)
    requires
        s1.to_multiset() == s2.to_multiset(),
    ensures
        key_count(s1, k) == key_count(s2, k),
    decreases s1.len(),
{
    broadcast use vstd::seq_lib::group_to_multiset_ensures;

    if s1.len() == 0 {
        assert(s2.to_multiset().len() == 0);
    } else {
        let f = s1.last();
        assert(s1 =~= s1.drop_last().push(f));
        assert(s1.to_multiset() == s1.drop_last().to_multiset().insert(f));
        assert(s2.to_multiset().count(f) > 0);
        assert(s2.contains(f));
        let i = choose|i: int| 0 <= i < s2.len() && s2[i] == f;
        assert(s2.remove(i).to_multiset() == s2.to_multiset().remove(f));
        assert(s1.drop_last().to_multiset() =~= s2.remove(i).to_multiset());
        lemma_key_count_permutation(s1.drop_last(), s2.remove(i), k);
        lemma_key_count_remove(s2, i, k);
    }
}

/// Counting is order-independent: two streams holding the same multiset of
/// frames build the same table, whatever the order of arrival.
pub proof fn lemma_order_independent(s1: Seq<DecodedFrame>, s2: Seq<DecodedFrame>)
    requires
        s1.to_multiset() == s2.to_multiset(),
    ensures
        table_of(s1) == table_of(s2),
{
    assert forall|k: PacketSrcDst| #[trigger] table_of(s1).dom().contains(k) implies table_of(
        s2,
    ).dom().contains(k) && table_of(s1)[k] == table_of(s2)[k] by {
        lemma_table_of_key_count(s1, k);
        lemma_table_of_key_count(s2, k);
        lemma_key_count_permutation(s1, s2, k);
    }
    assert forall|k: PacketSrcDst| #[trigger] table_of(s2).dom().contains(k) implies table_of(
        s1,
    ).dom().contains(k) by {
        lemma_table_of_key_count(s1, k);
        lemma_table_of_key_count(s2, k);
        lemma_key_count_permutation(s1, s2, k);
    }
    assert(table_of(s1) =~= table_of(s2));
}

/// A frame that is not counted leaves the table alone, wherever it stands in
/// the stream.
proof fn lemma_uncounted_frame_ignored(
    s1: Seq<DecodedFrame>,
    f: DecodedFrame,
    s2: Seq<DecodedFrame>,
)
    requires
        !counted(f),
    ensures
        table_of(s1 + seq![f] + s2) == table_of(s1 + s2),
{
    assert forall|k: PacketSrcDst| #![auto] key_count(s1 + seq![f] + s2, k) == key_count(
        s1 + s2,
        k,
    ) by {
        lemma_key_count_add(s1 + seq![f], s2, k);
        lemma_key_count_add(s1, seq![f], k);
        lemma_key_count_add(s1, s2, k);
        assert(seq![f].last() == f);
        assert(seq![f].drop_last() =~= Seq::<DecodedFrame>::empty());
        assert(key_count(seq![f].drop_last(), k) == 0);
        assert(key_count(seq![f], k) == 0);
    }
    assert forall|k: PacketSrcDst| #[trigger] table_of(s1 + seq![f] + s2).dom().contains(
        k,
    ) implies table_of(s1 + s2).dom().contains(k) && table_of(s1 + seq![f] + s2)[k] == table_of(
        s1 + s2,
    )[k] by {
        lemma_table_of_key_count(s1 + seq![f] + s2, k);
        lemma_table_of_key_count(s1 + s2, k);
    }
    assert forall|k: PacketSrcDst| #[trigger] table_of(s1 + s2).dom().contains(k) implies table_of(
        s1 + seq![f] + s2,
    ).dom().contains(k) by {
        lemma_table_of_key_count(s1 + seq![f] + s2, k);
        lemma_table_of_key_count(s1 + s2, k);
    }
    assert(table_of(s1 + seq![f] + s2) =~= table_of(s1 + s2));
}

/// Injecting a frame with no decodable IP layer anywhere into a stream
/// leaves the aggregation table unaffected.
pub proof fn lemma_non_ip_frame_ignored(
    s1: Seq<DecodedFrame>,
    f: DecodedFrame,
    s2: Seq<DecodedFrame>,
)
    requires
        f.ip is None,
    ensures
        table_of(s1 + seq![f] + s2) == table_of(s1 + s2),
{
    lemma_uncounted_frame_ignored(s1, f, s2);
}

/// Injecting a TCP frame with the reset flag set anywhere into a stream
/// leaves the aggregation table unaffected, whatever its addresses.
pub proof fn lemma_reset_frame_ignored(
    s1: Seq<DecodedFrame>,
    f: DecodedFrame,
    s2: Seq<DecodedFrame>,
)
    requires
        is_reset(f),
    ensures
        table_of(s1 + seq![f] + s2) == table_of(s1 + s2),
{
    lemma_uncounted_frame_ignored(s1, f, s2);
}

/// The counted frames of a stream, in their original order: what is left
/// after the skip rules drop the frames without an IP layer and the TCP
/// resets.
pub open spec fn counted_only(frames: Seq<DecodedFrame>) -> Seq<DecodedFrame> {
    frames.filter(|f: DecodedFrame| counted(f))
}

/// Skipped frames do not take part in counting at all.
proof fn lemma_key_count_counted_only(frames: Seq<DecodedFrame>, k: PacketSrcDst)
    ensures
        key_count(counted_only(frames), k) == key_count(frames, k),
    decreases frames.len(),
{
    reveal(Seq::filter);
    if frames.len() > 0 {
        lemma_key_count_counted_only(frames.drop_last(), k);
        if counted(frames.last()) {
            assert(counted_only(frames) == counted_only(frames.drop_last()).push(frames.last()));
            assert(counted_only(frames).drop_last() =~= counted_only(frames.drop_last()));
            assert(counted_only(frames).last() == frames.last());
        } else {
            assert(counted_only(frames) == counted_only(frames.drop_last()));
        }
    }
}

/// Only counted frames shape the table: a stream builds the same aggregation
/// table as the stream of just its counted frames, so any number of non-IP
/// or TCP-reset frames, wherever they stand, leave the result untouched.
pub proof fn lemma_only_counted_frames_matter(frames: Seq<DecodedFrame>)
    ensures
        table_of(counted_only(frames)) == table_of(frames),
{
    assert forall|k: PacketSrcDst| #[trigger] table_of(counted_only(frames)).dom().contains(
        k,
    ) implies table_of(frames).dom().contains(k) && table_of(counted_only(frames))[k] == table_of(
        frames,
    )[k] by {
        lemma_table_of_key_count(counted_only(frames), k);
        lemma_table_of_key_count(frames, k);
        lemma_key_count_counted_only(frames, k);
    }
    assert forall|k: PacketSrcDst| #[trigger] table_of(frames).dom().contains(k) implies table_of(
        counted_only(frames),
    ).dom().contains(k) by {
        lemma_table_of_key_count(counted_only(frames), k);
        lemma_table_of_key_count(frames, k);
        lemma_key_count_counted_only(frames, k);
    }
    assert(table_of(counted_only(frames)) =~= table_of(frames));
}

/// Directionality: a counted frame raises exactly the counter of its own
/// directed key; the key of the opposite direction is a different key and
/// its counter, and presence, are untouched.
pub proof fn lemma_directionality(s: Seq<DecodedFrame>, f: DecodedFrame, g: DecodedFrame)
    requires
        counted(f),
        counted(g),
        key_of(g).src == key_of(f).dst,
        key_of(g).dst == key_of(f).src,
        key_of(f).src != key_of(f).dst,
    ensures
        key_of(f) != key_of(g),
        table_of(s.push(f)) == bump(table_of(s), key_of(f)),
        table_of(s.push(f)).dom().contains(key_of(g)) <==> table_of(s).dom().contains(key_of(g)),
        table_of(s).dom().contains(key_of(g)) ==> table_of(s.push(f))[key_of(g)] == table_of(
            s,
        )[key_of(g)],
{
    assert(s.push(f).drop_last() =~= s);
    assert(s.push(f).last() == f);
}

/// Builds the aggregation table for `frames` in one forward pass: frames
/// without an IP layer and TCP resets are skipped, every other frame raises
/// the counter of its directed (source, destination) key.
pub fn aggregate(frames: &Vec<DecodedFrame>) -> (t: AggregationTable)
    ensures
        t.wf(),
        t@ == table_of(frames@),
{
    let n = frames.len();
    let mut t = AggregationTable::new();
    for i in 0..n
        invariant
            n == frames@.len(),
            t.wf(),
            t@ == table_of(frames@.take(i as int)),
    {
        let f = frames[i];
        proof {
            assert(frames@.take(i + 1).drop_last() =~= frames@.take(i as int));
            assert(frames@.take(i + 1).last() == frames@[i as int]);
        }
        if let Some(h) = f.ip {
            let reset = match f.transport {
                Some(ti) => ti.tcp_rst,
                None => false,
            };
            if !reset {
                let key = PacketSrcDst::from_ip_header(h);
                proof {
                    assert(counted(frames@[i as int]));
                    assert(key == key_of(frames@[i as int]));
                    lemma_table_of_key_count(frames@.take(i as int), key);
                    lemma_key_count_le_len(frames@.take(i as int), key);
                    assert(t@.dom().contains(key) ==> t@[key] < u64::MAX);
                }
                t.record(key);
            }
        }
    }
    proof {
        assert(frames@.take(n as int) =~= frames@);
    }
    t
}

} // verus!
