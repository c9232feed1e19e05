//! The decoded vector clock: a map from node id to counter.

use vstd::prelude::*;
use crate::order::{lemma_str_lt_irreflexive, lemma_str_lt_total, str_less};
use crate::wire::WireVectorClock;

verus! {

/// The map that a list of (node id, counter) entries denotes: each entry sets
/// its node's counter, so of two entries for one node the later one wins.
pub open spec fn clock_of(pairs: Seq<(Seq<char>, u64)>) -> Map<Seq<char>, u64>
    decreases pairs.len(),
{
    if pairs.len() == 0 {
        Map::empty()
    } else {
        clock_of(pairs.drop_last()).insert(pairs.last().0, pairs.last().1)
    }
}

/// No node id occurs twice among the entries.
pub open spec fn node_ids_unique(pairs: Seq<(Seq<char>, u64)>) -> bool {
    forall|i: int, j: int|
        0 <= i < pairs.len() && 0 <= j < pairs.len() && i != j ==> pairs[i].0 != pairs[j].0
}

proof fn lemma_clock_of_update(pairs: Seq<(Seq<char>, u64)>, i: int, counter: u64)
    requires
        node_ids_unique(pairs),
        0 <= i < pairs.len(),
    ensures
        clock_of(pairs.update(i, (pairs[i].0, counter))) == clock_of(pairs).insert(
            pairs[i].0,
            counter,
        ),
    decreases pairs.len(),
{
    let updated = pairs.update(i, (pairs[i].0, counter));
    let last = pairs.len() - 1;
    if i == last {
        assert(updated.drop_last() =~= pairs.drop_last());
        assert(clock_of(updated) =~= clock_of(pairs).insert(pairs[i].0, counter));
    } else {
        let init = pairs.drop_last();
        assert(node_ids_unique(init));
        assert(updated.drop_last() =~= init.update(i, (init[i].0, counter)));
        lemma_clock_of_update(init, i, counter);
        assert(pairs[i].0 != pairs[last].0);
        assert(clock_of(updated) =~= clock_of(pairs).insert(pairs[i].0, counter));
    }
}

proof fn lemma_clock_of_absent(pairs: Seq<(Seq<char>, u64)>, node: Seq<char>)
    requires
        forall|i: int| 0 <= i < pairs.len() ==> pairs[i].0 != node,
    ensures
        !clock_of(pairs).contains_key(node),
    decreases pairs.len(),
{
    if pairs.len() > 0 {
        lemma_clock_of_absent(pairs.drop_last(), node);
    }
}

proof fn lemma_clock_of_present(pairs: Seq<(Seq<char>, u64)>, i: int)
    requires
        node_ids_unique(pairs),
        0 <= i < pairs.len(),
    ensures
        clock_of(pairs).contains_key(pairs[i].0),
        clock_of(pairs)[pairs[i].0] == pairs[i].1,
    decreases pairs.len(),
{
    if i < pairs.len() - 1 {
        assert(node_ids_unique(pairs.drop_last()));
        lemma_clock_of_present(pairs.drop_last(), i);
    }
}

/// Decoding keeps exactly the nodes that have an entry, and each node gets the
/// counter of its last entry.
pub proof fn law_clock_last_entry_wins(pairs: Seq<(Seq<char>, u64)>, node: Seq<char>, i: int)
    requires
        0 <= i < pairs.len(),
        pairs[i].0 == node,
        forall|j: int| i < j < pairs.len() ==> pairs[j].0 != node,
    ensures
        clock_of(pairs).contains_key(node),
        clock_of(pairs)[node] == pairs[i].1,
    decreases pairs.len(),
{
    if i < pairs.len() - 1 {
        law_clock_last_entry_wins(pairs.drop_last(), node, i);
    }
}

/// A node without any entry is absent from the decoded clock.
pub proof fn law_clock_absent_node(pairs: Seq<(Seq<char>, u64)>, node: Seq<char>)
    requires
        forall|j: int| 0 <= j < pairs.len() ==> pairs[j].0 != node,
    ensures
        !clock_of(pairs).contains_key(node),
{
    lemma_clock_of_absent(pairs, node);
}

/// A vector clock: for each node id, how many writes of that node the writer
/// had observed. A node that is absent stands for counter 0.
#[derive(Debug, Clone, PartialEq, Eq)]
pub struct ClientVectorClock {
    entries: Vec<(String, u64)>,
}

impl View for ClientVectorClock {
    type V = Map<Seq<char>, u64>;

    open spec fn view(&self) -> Map<Seq<char>, u64> {
        clock_of(self.pairs())
    }
}

impl ClientVectorClock {
    /// The stored entries as (node id, counter) pairs.
    pub closed spec fn pairs(&self) -> Seq<(Seq<char>, u64)> {
        self.entries@.map_values(|e: (String, u64)| (e.0@, e.1))
    }

    pub open spec fn wf(&self) -> bool {
        node_ids_unique(self.pairs())
    }

    /// The clock with no entries.
    pub fn new() -> (r: Self)
        ensures
            r.wf(),
            r@ == Map::<Seq<char>, u64>::empty(),
    {
        let r = ClientVectorClock { entries: Vec::new() };
        assert(r.pairs() =~= Seq::<(Seq<char>, u64)>::empty());
        r
    }

    /// Sets the counter of `node_id`, replacing the one it had.
    pub fn insert(&mut self, node_id: String, counter: u64)
        requires
            old(self).wf(),
        ensures
            final(self).wf(),
            final(self)@ == old(self)@.insert(node_id@, counter),
    {
        let n: usize = self.entries.len();
        let mut i: usize = 0;
        while i < n
            invariant
                n == self.entries@.len(),
                i <= n,
                *self == *old(self),
                self.wf(),
                forall|k: int| 0 <= k < i ==> self.pairs()[k].0 != node_id@,
            decreases n - i,
        {
            if self.entries[i].0 == node_id {
                let ghost before = self.pairs();
                proof {
                    lemma_clock_of_update(before, i as int, counter);
                }
                self.entries[i] = (node_id, counter);
                assert(self.pairs() =~= before.update(i as int, (before[i as int].0, counter)));
                return;
            }
            i = i + 1;
        }
        let ghost before = self.pairs();
        self.entries.push((node_id, counter));
        assert(self.pairs() =~= before.push((node_id@, counter)));
        assert(self.pairs().drop_last() =~= before);
        assert(clock_of(self.pairs()) == clock_of(before).insert(node_id@, counter));
    }

    /// The counter recorded for `node_id`, if any.
    pub fn get(&self, node_id: &str) -> (r: Option<u64>)
        requires
            self.wf(),
        ensures
            r == (if self@.contains_key(node_id@) {
                Some(self@[node_id@])
            } else {
                None
            }),
    {
        let n: usize = self.entries.len();
        let mut i: usize = 0;
        while i < n
            invariant
                n == self.entries@.len(),
                i <= n,
                self.wf(),
                forall|k: int| 0 <= k < i ==> self.pairs()[k].0 != node_id@,
            decreases n - i,
        {
            let id: &str = self.entries[i].0.as_str();
            if !str_less(id, node_id) && !str_less(node_id, id) {
                proof {
                    lemma_str_lt_total(id@, node_id@);
                    lemma_clock_of_present(self.pairs(), i as int);
                }
                return Some(self.entries[i].1);
            }
            proof {
                lemma_str_lt_irreflexive(id@);
            }
            i = i + 1;
        }
        proof {
            lemma_clock_of_absent(self.pairs(), node_id@);
        }
        None
    }

    /// Whether no node has a counter.
    pub fn is_empty(&self) -> (r: bool)
        requires
            self.wf(),
        ensures
            r == (self@ == Map::<Seq<char>, u64>::empty()),
    {
        proof {
            if self.pairs().len() > 0 {
                lemma_clock_of_present(self.pairs(), 0);
                assert(!Map::<Seq<char>, u64>::empty().contains_key(self.pairs()[0].0));
            } else {
                assert(self@ =~= Map::<Seq<char>, u64>::empty());
            }
        }
        self.entries.len() == 0
    }

    /// The entries, one per node, in the order the nodes were first set.
    pub fn entries(&self) -> (r: &[(String, u64)])
        ensures
            r@.map_values(|e: (String, u64)| (e.0@, e.1)) == self.pairs(),
    {
        self.entries.as_slice()
    }

    /// Decodes a clock from the wire; of two entries for one node the later
    /// one wins.
    pub fn from_wire(wire: WireVectorClock) -> (r: Self)
        ensures
            r.wf(),
            r@ == clock_of(wire.pairs()),
    {
        let mut r = ClientVectorClock::new();
        let n: usize = wire.entries.len();
        let mut i: usize = 0;
        while i < n
            invariant
                n == wire.entries@.len(),
                i <= n,
                r.wf(),
                r@ == clock_of(wire.pairs().take(i as int)),
            decreases n - i,
        {
            let node_id = wire.entries[i].node_id.clone();
            r.insert(node_id, wire.entries[i].counter);
            assert(wire.pairs().take(i + 1).drop_last() =~= wire.pairs().take(i as int));
            i = i + 1;
        }
        assert(wire.pairs().take(n as int) =~= wire.pairs());
        r
    }
}

} // verus!
