//! What a node knows about the others.

use crate::node::{NodeType, PeerId};
use vstd::prelude::*;

verus! {

/// What is known about one node.
#[derive(Debug, Clone, Copy, PartialEq, Eq, Structural)]
pub struct Ledger {
    pub score: u16,
    pub node_type: NodeType,
}

/// The ledgers of all known nodes, one for each.
#[derive(Debug, Clone, PartialEq, Eq)]
pub struct Ledgers {
    entries: Vec<(PeerId, Ledger)>,
}

/// The map that a list of pairs makes up.
spec fn entries_map(entries: Seq<(PeerId, Ledger)>) -> Map<Seq<u8>, Ledger>
    decreases entries.len(),
{
    if entries.len() == 0 {
        Map::empty()
    } else {
        entries_map(entries.drop_last()).insert(entries.last().0@, entries.last().1)
    }
}

/// No node is there twice.
spec fn is_distinct(entries: Seq<(PeerId, Ledger)>) -> bool {
    forall|i: int, j: int|
        0 <= i < j < entries.len() ==> (#[trigger] entries[i]).0@ != (#[trigger] entries[j]).0@
}

proof fn lemma_entries_map(entries: Seq<(PeerId, Ledger)>)
    requires
        is_distinct(entries),
    ensures
        forall|i: int|
            0 <= i < entries.len() ==> entries_map(entries).contains_key(
                (#[trigger] entries[i]).0@,
            ) && entries_map(entries)[entries[i].0@] == entries[i].1,
        forall|p: Seq<u8>| #[trigger]
            entries_map(entries).contains_key(p) ==> exists|i: int|
                0 <= i < entries.len() && (#[trigger] entries[i]).0@ == p,
        entries_map(entries).dom().finite(),
    decreases entries.len(),
{
    if entries.len() > 0 {
        let front = entries.drop_last();
        assert forall|i: int| 0 <= i < front.len() implies front[i] == #[trigger] entries[i] by {}
        assert(is_distinct(front));
        lemma_entries_map(front);
        assert forall|i: int| 0 <= i < entries.len() implies entries_map(entries).contains_key(
            (#[trigger] entries[i]).0@,
        ) && entries_map(entries)[entries[i].0@] == entries[i].1 by {
            if i < front.len() {
                assert(front[i] == entries[i]);
                assert(entries[i].0@ != entries[entries.len() - 1].0@);
            }
        }
        assert forall|p: Seq<u8>| #[trigger]
            entries_map(entries).contains_key(p) implies exists|i: int|
            0 <= i < entries.len() && (#[trigger] entries[i]).0@ == p by {
            if p == entries.last().0@ {
                assert(entries[entries.len() - 1].0@ == p);
            } else {
                let i = choose|i: int| 0 <= i < front.len() && (#[trigger] front[i]).0@ == p;
                assert(entries[i].0@ == p);
            }
        }
    }
}

/// The first `limit` storage nodes of the list.
spec fn first_storage_nodes(entries: Seq<(PeerId, Ledger)>, limit: nat) -> Seq<Seq<u8>>
    decreases entries.len(),
{
    if entries.len() == 0 {
        Seq::empty()
    } else {
        let before = first_storage_nodes(entries.drop_last(), limit);
        if before.len() < limit && entries.last().1.node_type == NodeType::StorageNode {
            before.push(entries.last().0@)
        } else {
            before
        }
    }
}

proof fn lemma_enough_storage_nodes(entries: Seq<(PeerId, Ledger)>, limit: nat, i: int)
    requires
        0 <= i <= entries.len(),
        first_storage_nodes(entries.take(i), limit).len() >= limit,
    ensures
        first_storage_nodes(entries, limit) == first_storage_nodes(entries.take(i), limit),
    decreases entries.len() - i,
{
    if i == entries.len() {
        assert(entries.take(i) == entries);
    } else {
        assert(entries.take(i + 1).drop_last() == entries.take(i));
        lemma_enough_storage_nodes(entries, limit, i + 1);
    }
}

impl View for Ledgers {
    type V = Map<Seq<u8>, Ledger>;

    closed spec fn view(&self) -> Map<Seq<u8>, Ledger> {
        entries_map(self.entries@)
    }
}

/// The storage nodes among the known nodes.
pub open spec fn storage_nodes(ledgers: Map<Seq<u8>, Ledger>) -> Set<Seq<u8>> {
    ledgers.dom().filter(|p: Seq<u8>| ledgers[p].node_type == NodeType::StorageNode)
}

/// The identities of the nodes.
pub open spec fn identities(nodes: Seq<PeerId>) -> Seq<Seq<u8>> {
    nodes.map_values(|node: PeerId| node@)
}

/// These are different storage nodes, as many as there are but no more than `limit`.
pub open spec fn is_selection(
    nodes: Seq<Seq<u8>>,
    ledgers: Map<Seq<u8>, Ledger>,
    limit: nat,
) -> bool {
    &&& nodes.no_duplicates()
    &&& forall|i: int| 0 <= i < nodes.len() ==> storage_nodes(ledgers).contains(#[trigger] nodes[i])
    &&& nodes.len() == if storage_nodes(ledgers).len() < limit {
        storage_nodes(ledgers).len()
    } else {
        limit
    }
}

impl Ledgers {
    /// Each node has one ledger.
    pub closed spec fn wf(&self) -> bool {
        is_distinct(self.entries@)
    }

    /// The storage nodes that are picked where no more than `limit` are asked for.
    pub closed spec fn selection(&self, limit: nat) -> Seq<Seq<u8>> {
        first_storage_nodes(self.entries@, limit)
    }

    /// No node is known.
    pub fn new() -> (ledgers: Ledgers)
        ensures
            ledgers.wf(),
            ledgers@ == Map::<Seq<u8>, Ledger>::empty(),
    {
        Ledgers { entries: Vec::new() }
    }

    fn position(&self, peer: &PeerId) -> (found: Option<usize>)
        ensures
            match found {
                Some(i) => i < self.entries@.len() && self.entries@[i as int].0@ == peer@,
                None => forall|j: int|
                    0 <= j < self.entries@.len() ==> (#[trigger] self.entries@[j]).0@ != peer@,
            },
    {
        let mut i: usize = 0;
        while i < self.entries.len()
            invariant
                i <= self.entries.len(),
                forall|j: int| 0 <= j < i ==> (#[trigger] self.entries@[j]).0@ != peer@,
            decreases self.entries.len() - i,
        {
            if self.entries[i].0.same_as(peer) {
                return Some(i);
            }
            i = i + 1;
        }
        None
    }

    /// Notes what is known about a node, in place of what was known before.
    pub fn insert(&mut self, peer: PeerId, ledger: Ledger)
        requires
            old(self).wf(),
        ensures
            final(self).wf(),
            final(self)@ == old(self)@.insert(peer@, ledger),
    {
        let ghost before = self.entries@;
        match self.position(&peer) {
            Some(i) => {
                let ghost p = peer@;
                self.entries.set(i, (peer, ledger));
                proof {
                    let after = self.entries@;
                    assert forall|k: int| 0 <= k < after.len() implies (#[trigger] after[k]).0@
                        == before[k].0@ by {}
                    assert(is_distinct(after));
                    lemma_entries_map(before);
                    lemma_entries_map(after);
                    assert forall|q: Seq<u8>|
                        entries_map(after).contains_key(q) == entries_map(before).insert(
                            p,
                            ledger,
                        ).contains_key(q) by {
                        if entries_map(after).contains_key(q) {
                            let k = choose|k: int|
                                0 <= k < after.len() && (#[trigger] after[k]).0@ == q;
                            assert(before[k].0@ == q);
                        }
                        if entries_map(before).contains_key(q) {
                            let k = choose|k: int|
                                0 <= k < before.len() && (#[trigger] before[k]).0@ == q;
                            assert(after[k].0@ == q);
                        }
                        assert(after[i as int].0@ == p);
                    }
                    assert forall|q: Seq<u8>| entries_map(after).contains_key(q) implies entries_map(
                        after,
                    )[q] == entries_map(before).insert(p, ledger)[q] by {
                        let k = choose|k: int|
                            0 <= k < after.len() && (#[trigger] after[k]).0@ == q;
                        assert(before[k].0@ == q);
                        assert(after[i as int].0@ == p);
                    }
                    assert(entries_map(after) =~= entries_map(before).insert(p, ledger));
                }
            },
            None => {
                self.entries.push((peer, ledger));
                proof {
                    assert(self.entries@.drop_last() == before);
                }
            },
        }
    }

    /// Forgets a node.
    pub fn remove(&mut self, peer: &PeerId)
        requires
            old(self).wf(),
        ensures
            final(self).wf(),
            final(self)@ == old(self)@.remove(peer@),
            !old(self)@.contains_key(peer@) ==> *final(self) == *old(self),
    {
        let ghost before = self.entries@;
        match self.position(peer) {
            Some(i) => {
                self.entries.remove(i);
                proof {
                    let after = self.entries@;
                    assert(before[i as int].0@ == peer@);
                    assert forall|k: int| 0 <= k < after.len() implies #[trigger] after[k]
                        == before[if k < i { k } else { k + 1 }] by {}
                    assert(is_distinct(after));
                    lemma_entries_map(before);
                    lemma_entries_map(after);
                    assert forall|q: Seq<u8>|
                        entries_map(after).contains_key(q) == entries_map(before).remove(
                            peer@,
                        ).contains_key(q) by {
                        if entries_map(after).contains_key(q) {
                            let k = choose|k: int|
                                0 <= k < after.len() && (#[trigger] after[k]).0@ == q;
                            let m = if k < i { k } else { k + 1 };
                            assert(before[m].0@ == q);
                            assert(before[i as int].0@ == peer@);
                        }
                        if entries_map(before).contains_key(q) && q != peer@ {
                            let k = choose|k: int|
                                0 <= k < before.len() && (#[trigger] before[k]).0@ == q;
                            let m = if k < i { k } else { k - 1 };
                            assert(after[m] == before[k]);
                        }
                    }
                    assert forall|q: Seq<u8>| entries_map(after).contains_key(q) implies entries_map(
                        after,
                    )[q] == entries_map(before).remove(peer@)[q] by {
                        let k = choose|k: int|
                            0 <= k < after.len() && (#[trigger] after[k]).0@ == q;
                        let m = if k < i { k } else { k + 1 };
                        assert(before[m].0@ == q);
                    }
                    assert(entries_map(after) =~= entries_map(before).remove(peer@));
                }
            },
            None => {
                proof {
                    lemma_entries_map(before);
                    assert(entries_map(before) =~= entries_map(before).remove(peer@));
                }
            },
        }
    }

    /// Picks storage nodes, no more than `limit`. Which ones is left open where there are more, but
    /// the same ledgers give the same nodes.
    pub fn select_storage_nodes(&self, limit: usize) -> (nodes: Vec<PeerId>)
        requires
            self.wf(),
        ensures
            identities(nodes@) == self.selection(limit as nat),
            is_selection(identities(nodes@), self@, limit as nat),
            nodes@.len() <= limit,
            forall|i: int|
                0 <= i < nodes@.len() ==> self@.contains_key((#[trigger] nodes@[i]).bytes@)
                    && self@[nodes@[i].bytes@].node_type == NodeType::StorageNode,
            forall|i: int, j: int|
                0 <= i < j < nodes@.len() ==> (#[trigger] nodes@[i]).bytes@ != (
                #[trigger] nodes@[j]).bytes@,
            nodes@.len() < limit ==> forall|p: Seq<u8>| #[trigger]
                self@.contains_key(p) && self@[p].node_type == NodeType::StorageNode ==> exists|
                    i: int,
                |
                    0 <= i < nodes@.len() && (#[trigger] nodes@[i]).bytes@ == p,
    {
        let mut nodes: Vec<PeerId> = Vec::new();
        let ghost storage = storage_nodes(self@);
        let ghost mut from: Seq<int> = Seq::empty();
        let mut i: usize = 0;
        proof {
            lemma_entries_map(self.entries@);
            assert(identities(nodes@) == Seq::<Seq<u8>>::empty());
            assert(self.entries@.take(0).len() == 0);
        }
        while i < self.entries.len() && nodes.len() < limit
            invariant
                identities(nodes@) == first_storage_nodes(
                    self.entries@.take(i as int),
                    limit as nat,
                ),
                self.wf(),
                i <= self.entries.len(),
                nodes.len() <= limit,
                storage == storage_nodes(self@),
                from.len() == nodes.len(),
                forall|k: int| 0 <= k < from.len() ==> 0 <= #[trigger] from[k] < i,
                forall|k: int, m: int|
                    0 <= k < m < from.len() ==> #[trigger] from[k] < #[trigger] from[m],
                forall|k: int|
                    0 <= k < from.len() ==> (#[trigger] nodes@[k])@ == self.entries@[from[k]].0@,
                forall|k: int| 0 <= k < nodes.len() ==> storage.contains((#[trigger] nodes@[k])@),
                forall|j: int|
                    0 <= j < i && (#[trigger] self.entries@[j]).1.node_type
                        == NodeType::StorageNode ==> from.contains(j),
            decreases self.entries.len() - i,
        {
            let ghost before = from;
            let ghost nodes_before = nodes@;
            assert(self.entries@.take(i + 1).drop_last() == self.entries@.take(i as int));
            if self.entries[i].1.node_type == NodeType::StorageNode {
                nodes.push(self.entries[i].0.clone());
                proof {
                    from = from.push(i as int);
                    lemma_entries_map(self.entries@);
                    assert(self@.contains_key(self.entries@[i as int].0@));
                    assert(from[before.len() as int] == i);
                    assert(identities(nodes@) == identities(nodes_before).push(
                        self.entries@[i as int].0@,
                    ));
                }
            }
            proof {
                assert forall|j: int|
                    0 <= j < i && (#[trigger] self.entries@[j]).1.node_type
                        == NodeType::StorageNode implies from.contains(j) by {
                    let k = choose|k: int| 0 <= k < before.len() && before[k] == j;
                    assert(from[k] == j);
                }
            }
            i = i + 1;
        }
        proof {
            lemma_entries_map(self.entries@);
            let ids = identities(nodes@);
            if nodes.len() >= limit {
                lemma_enough_storage_nodes(self.entries@, limit as nat, i as int);
            } else {
                assert(self.entries@.take(i as int) == self.entries@);
            }
            assert forall|a: int, b: int| 0 <= a < b < nodes@.len() implies (
            #[trigger] nodes@[a])@ != (#[trigger] nodes@[b])@ by {
                assert(from[a] < from[b]);
            }
            assert(ids.no_duplicates());
            ids.unique_seq_to_set();
            assert(ids.to_set().subset_of(storage)) by {
                assert forall|p: Seq<u8>| ids.to_set().contains(p) implies storage.contains(p) by {
                    let k = choose|k: int| 0 <= k < ids.len() && ids[k] == p;
                    assert(storage.contains(nodes@[k]@));
                }
            }
            vstd::set_lib::lemma_len_subset(ids.to_set(), storage);
            if nodes.len() < limit {
                assert(storage.subset_of(ids.to_set())) by {
                    assert forall|p: Seq<u8>| storage.contains(p) implies ids.to_set().contains(
                        p,
                    ) by {
                        let j = choose|j: int|
                            0 <= j < self.entries@.len() && (#[trigger] self.entries@[j]).0@ == p;
                        assert(from.contains(j));
                        let k = choose|k: int| 0 <= k < from.len() && from[k] == j;
                        assert(ids[k] == nodes@[k]@);
                    }
                }
                assert(storage =~= ids.to_set());
                assert forall|p: Seq<u8>| #[trigger]
                    self@.contains_key(p) && self@[p].node_type
                        == NodeType::StorageNode implies exists|k: int|
                    0 <= k < nodes@.len() && (#[trigger] nodes@[k]).bytes@ == p by {
                    assert(ids.to_set().contains(p));
                    let k = choose|k: int| 0 <= k < ids.len() && ids[k] == p;
                    assert(nodes@[k].bytes@ == p);
                }
            }
            assert forall|k: int| 0 <= k < nodes@.len() implies self@.contains_key(
                (#[trigger] nodes@[k]).bytes@,
            ) && self@[nodes@[k].bytes@].node_type == NodeType::StorageNode by {
                assert(storage.contains(nodes@[k]@));
            }
        }
        nodes
    }
}

/// A storage node is a known node whose ledger says so, whatever its score.
pub proof fn law_who_is_a_storage_node(ledgers: Map<Seq<u8>, Ledger>, peer: Seq<u8>)
    ensures
        storage_nodes(ledgers).contains(peer) <==> ledgers.contains_key(peer)
            && ledgers[peer].node_type == NodeType::StorageNode,
{
}

/// A selection has no node twice, storage nodes only, no more than the limit, and every storage
/// node where the limit is not reached.
pub proof fn law_what_a_selection_is(
    nodes: Seq<Seq<u8>>,
    ledgers: Map<Seq<u8>, Ledger>,
    limit: nat,
    peer: Seq<u8>,
)
    requires
        ledgers.dom().finite(),
        is_selection(nodes, ledgers, limit),
    ensures
        nodes.len() <= limit,
        forall|i: int|
            0 <= i < nodes.len() ==> ledgers.contains_key(#[trigger] nodes[i])
                && ledgers[nodes[i]].node_type == NodeType::StorageNode,
        forall|i: int, j: int|
            0 <= i < j < nodes.len() ==> #[trigger] nodes[i] != #[trigger] nodes[j],
        nodes.len() < limit && ledgers.contains_key(peer) && ledgers[peer].node_type
            == NodeType::StorageNode ==> exists|i: int|
            0 <= i < nodes.len() && #[trigger] nodes[i] == peer,
{
    let storage = storage_nodes(ledgers);
    assert forall|i: int| 0 <= i < nodes.len() implies ledgers.contains_key(#[trigger] nodes[i])
        && ledgers[nodes[i]].node_type == NodeType::StorageNode by {
        assert(storage.contains(nodes[i]));
    }
    if nodes.len() < limit {
        nodes.unique_seq_to_set();
        assert(nodes.to_set().subset_of(storage)) by {
            assert forall|p: Seq<u8>| nodes.to_set().contains(p) implies storage.contains(p) by {
                let k = choose|k: int| 0 <= k < nodes.len() && nodes[k] == p;
                assert(storage.contains(nodes[k]));
            }
        }
        vstd::set_lib::lemma_subset_equality(nodes.to_set(), storage);
        if storage.contains(peer) {
            assert(nodes.to_set().contains(peer));
            let k = choose|k: int| 0 <= k < nodes.len() && nodes[k] == peer;
            assert(nodes[k] == peer);
        }
    }
}

/// The identities of nodes are their bytes, node by node.
pub proof fn law_identities(nodes: Seq<PeerId>, i: int)
    requires
        0 <= i < nodes.len(),
    ensures
        identities(nodes).len() == nodes.len(),
        identities(nodes)[i] == nodes[i].bytes@,
{
}

} // verus!
