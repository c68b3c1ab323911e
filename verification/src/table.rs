//! The aggregation table: a mapping from connection key to packet counter.

use vstd::prelude::*;

use crate::frame::PacketSrcDst;

verus! {

/// The effect of counting one more packet for `k`: the counter of `k` rises
/// by one, starting at one for a key not yet present; no other key changes.
pub open spec fn bump(m: Map<PacketSrcDst, nat>, k: PacketSrcDst) -> Map<PacketSrcDst, nat> {
    m.insert(
        k,
        if m.dom().contains(k) {
            (m[k] + 1) as nat
        } else {
            1nat
        },
    )
}

/// A mapping from directed connection key to a packet counter, abstracted as
/// `Map<PacketSrcDst, nat>` through its view. Invariant: every key present
/// has a counter of at least one.
pub struct AggregationTable {
    entries: Vec<(PacketSrcDst, u64)>,
}

/// Keys of the entry list are pairwise distinct.
spec fn keys_distinct(s: Seq<(PacketSrcDst, u64)>) -> bool {
    forall|i: int, j: int| 0 <= i < j < s.len() ==> (#[trigger] s[i]).0 != (#[trigger] s[j]).0
}

/// The mapping an entry list stands for.
spec fn map_of(s: Seq<(PacketSrcDst, u64)>) -> Map<PacketSrcDst, nat>
    decreases s.len(),
{
    if s.len() == 0 {
        Map::empty()
    } else {
        map_of(s.drop_last()).insert(s.last().0, s.last().1 as nat)
    }
}

/// A key is in the mapping iff some entry carries it.
proof fn lemma_map_of_dom(s: Seq<(PacketSrcDst, u64)>)
    ensures
        forall|k: PacketSrcDst|
            #[trigger] map_of(s).dom().contains(k) <==> (exists|i: int|
                0 <= i < s.len() && (#[trigger] s[i]).0 == k),
    decreases s.len(),
{
    if s.len() > 0 {
        lemma_map_of_dom(s.drop_last());
        assert forall|k: PacketSrcDst| #[trigger] map_of(s).dom().contains(k) implies (exists|
            i: int,
        | 0 <= i < s.len() && (#[trigger] s[i]).0 == k) by {
            if s.last().0 == k {
                assert(s[s.len() - 1].0 == k);
            } else {
                assert(map_of(s.drop_last()).dom().contains(k));
                let i = choose|i: int| 0 <= i < s.drop_last().len() && (#[trigger] s.drop_last()[i]).0 == k;
                assert(s[i].0 == k);
            }
        }
        assert forall|k: PacketSrcDst| (exists|i: int|
            0 <= i < s.len() && (#[trigger] s[i]).0 == k) implies #[trigger] map_of(
            s,
        ).dom().contains(k) by {
            let i = choose|i: int| 0 <= i < s.len() && (#[trigger] s[i]).0 == k;
            if i < s.len() - 1 {
                assert(s.drop_last()[i].0 == k);
                assert(map_of(s.drop_last()).dom().contains(k));
            }
        }
    }
}

/// With distinct keys, the mapping sends each entry's key to its counter.
proof fn lemma_map_of_index(s: Seq<(PacketSrcDst, u64)>, i: int)
    requires
        keys_distinct(s),
        0 <= i < s.len(),
    ensures
        map_of(s).dom().contains(s[i].0),
        map_of(s)[s[i].0] == s[i].1 as nat,
    decreases s.len(),
{
    if i == s.len() - 1 {
    } else {
        assert(keys_distinct(s.drop_last()));
        assert(s.drop_last()[i] == s[i]);
        lemma_map_of_index(s.drop_last(), i);
        assert(s[i].0 != s.last().0);
    }
}

/// With distinct keys, replacing the counter of entry `i` is an insert.
proof fn lemma_map_of_update(s: Seq<(PacketSrcDst, u64)>, i: int, c: u64)
    requires
        keys_distinct(s),
        0 <= i < s.len(),
    ensures
        map_of(s.update(i, (s[i].0, c))) == map_of(s).insert(s[i].0, c as nat),
    decreases s.len(),
{
    let t = s.update(i, (s[i].0, c));
    if i == s.len() - 1 {
        assert(t.drop_last() =~= s.drop_last());
        assert(map_of(t) =~= map_of(s).insert(s[i].0, c as nat));
    } else {
        assert(keys_distinct(s.drop_last()));
        assert(s.drop_last()[i] == s[i]);
        lemma_map_of_update(s.drop_last(), i, c);
        assert(t.drop_last() =~= s.drop_last().update(i, (s[i].0, c)));
        assert(t.last() == s.last());
        assert(s[i].0 != s.last().0);
        assert(map_of(t) =~= map_of(s).insert(s[i].0, c as nat));
    }
}

/// With distinct keys, the mapping has exactly one element per entry.
proof fn lemma_map_of_dom_len(s: Seq<(PacketSrcDst, u64)>)
    requires
        keys_distinct(s),
    ensures
        map_of(s).dom().finite(),
        map_of(s).dom().len() == s.len(),
    decreases s.len(),
{
    if s.len() > 0 {
        assert(keys_distinct(s.drop_last()));
        lemma_map_of_dom_len(s.drop_last());
        lemma_map_of_dom(s.drop_last());
        assert(!map_of(s.drop_last()).dom().contains(s.last().0)) by {
            if map_of(s.drop_last()).dom().contains(s.last().0) {
                let i = choose|i: int|
                    0 <= i < s.drop_last().len() && (#[trigger] s.drop_last()[i]).0
                        == s.last().0;
                assert(s[i].0 == s[s.len() - 1].0);
            }
        }
        assert(map_of(s).dom() =~= map_of(s.drop_last()).dom().insert(s.last().0));
    }
}

impl View for AggregationTable {
    type V = Map<PacketSrcDst, nat>;

    closed spec fn view(&self) -> Map<PacketSrcDst, nat> {
        map_of(self.entries@)
    }
}

impl AggregationTable {
    /// Well-formedness: one entry per key, every counter at least one.
    pub closed spec fn wf(&self) -> bool {
        &&& keys_distinct(self.entries@)
        &&& forall|i: int| 0 <= i < self.entries@.len() ==> (#[trigger] self.entries@[i]).1 >= 1
    }

    /// Every key present in a well-formed table counts at least one packet.
    pub proof fn lemma_counter_positive(&self)
        requires
            self.wf(),
        ensures
            forall|k: PacketSrcDst| #[trigger] self@.dom().contains(k) ==> self@[k] >= 1,
    {
        lemma_map_of_dom(self.entries@);
        assert forall|k: PacketSrcDst| #[trigger] self@.dom().contains(k) implies self@[k]
            >= 1 by {
            let i = choose|i: int|
                0 <= i < self.entries@.len() && (#[trigger] self.entries@[i]).0 == k;
            lemma_map_of_index(self.entries@, i);
        }
    }

    /// The empty table.
    pub fn new() -> (t: AggregationTable)
        ensures
            t.wf(),
            t@ == Map::<PacketSrcDst, nat>::empty(),
    {
        AggregationTable { entries: Vec::new() }
    }

    /// Counts one more packet for `key`.
    pub fn record(&mut self, key: PacketSrcDst)
        requires
            old(self).wf(),
            old(self)@.dom().contains(key) ==> old(self)@[key] < u64::MAX,
        ensures
            final(self).wf(),
            final(self)@ == bump(old(self)@, key),
    {
        proof {
            lemma_map_of_dom(self.entries@);
        }
        let n = self.entries.len();
        for i in 0..n
            invariant
                n == self.entries@.len(),
                *self == *old(self),
                self.wf(),
                old(self)@.dom().contains(key) ==> old(self)@[key] < u64::MAX,
                forall|j: int| 0 <= j < i ==> (#[trigger] self.entries@[j]).0 != key,
        {
            if self.entries[i].0 == key {
                let c = self.entries[i].1;
                proof {
                    lemma_map_of_index(self.entries@, i as int);
                    lemma_map_of_update(self.entries@, i as int, (c + 1) as u64);
                }
                self.entries.set(i, (key, c + 1));
                return ;
            }
        }
        proof {
            assert(!self@.dom().contains(key));
        }
        self.entries.push((key, 1));
        proof {
            assert(self.entries@.drop_last() =~= old(self).entries@);
            assert(forall|j: int|
                0 <= j < self.entries@.len() - 1 ==> (#[trigger] self.entries@[j]).0 != key);
        }
    }

    /// The counter of `key`, zero when the key is absent.
    pub fn count(&self, key: &PacketSrcDst) -> (c: u64)
        requires
            self.wf(),
        ensures
            self@.dom().contains(*key) ==> c as nat == self@[*key],
            !self@.dom().contains(*key) ==> c == 0,
    {
        proof {
            lemma_map_of_dom(self.entries@);
        }
        let n = self.entries.len();
        for i in 0..n
            invariant
                n == self.entries@.len(),
                self.wf(),
                forall|j: int| 0 <= j < i ==> (#[trigger] self.entries@[j]).0 != *key,
        {
            if self.entries[i].0 == *key {
                proof {
                    lemma_map_of_index(self.entries@, i as int);
                }
                return self.entries[i].1;
            }
        }
        0
    }

    /// How many distinct keys the table holds.
    pub fn len(&self) -> (n: usize)
        requires
            self.wf(),
        ensures
            n == self@.dom().len(),
    {
        proof {
            lemma_map_of_dom_len(self.entries@);
        }
        self.entries.len()
    }

    /// The keys of the table, each exactly once, in first-seen order.
    pub fn keys(&self) -> (ks: Vec<PacketSrcDst>)
        requires
            self.wf(),
        ensures
            forall|i: int, j: int| 0 <= i < j < ks@.len() ==> ks@[i] != ks@[j],
            forall|i: int| 0 <= i < ks@.len() ==> self@.dom().contains(#[trigger] ks@[i]),
            forall|k: PacketSrcDst| #[trigger] self@.dom().contains(k) ==> ks@.contains(k),
    {
        proof {
            lemma_map_of_dom(self.entries@);
        }
        let n = self.entries.len();
        let mut ks: Vec<PacketSrcDst> = Vec::new();
        for i in 0..n
            invariant
                n == self.entries@.len(),
                self.wf(),
                ks@.len() == i,
                forall|j: int| 0 <= j < i ==> ks@[j] == (#[trigger] self.entries@[j]).0,
        {
            ks.push(self.entries[i].0);
        }
        proof {
            assert forall|k: PacketSrcDst| #[trigger] self@.dom().contains(k) implies ks@.contains(
                k,
            ) by {
                let i = choose|i: int|
                    0 <= i < self.entries@.len() && (#[trigger] self.entries@[i]).0 == k;
                assert(ks@[i] == k);
            }
            assert forall|i: int| 0 <= i < ks@.len() implies self@.dom().contains(
                #[trigger] ks@[i],
            ) by {
                lemma_map_of_index(self.entries@, i);
            }
            assert forall|i: int, j: int| 0 <= i < j < ks@.len() implies ks@[i] != ks@[j] by {
                assert((self.entries@[i]).0 != (self.entries@[j]).0);
            }
        }
        ks
    }
}

} // verus!
