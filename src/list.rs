//! The recency chain: access records, oldest first, each with a unique
//! identifier that grows with the order of insertion.

use vstd::prelude::*;

use crate::Error;

verus! {

/// One access record: the key that was touched, when (microseconds since the
/// epoch), and whether it has been superseded.
#[derive(Debug, Clone, Copy, PartialEq, Eq)]
pub struct Node {
    pub id: u64,
    pub key: u64,
    pub born: u64,
    pub deleted: bool,
}

impl Node {
    /// Build a live record.
    pub fn new_node(id: u64, key: u64, born: u64) -> (r: Node)
        ensures
            r == (Node { id, key, born, deleted: false }),
    {
        Node { id, key, born, deleted: false }
    }

    /// Tombstone this record; doing it twice changes nothing more.
    pub fn delete(&mut self)
        ensures
            *final(self) == (Node { deleted: true, ..*old(self) }),
    {
        self.deleted = true;
    }

    /// Split the record into its key and timestamp.
    pub fn unwrap(self) -> (r: (u64, u64))
        ensures
            r == (self.key, self.born),
    {
        (self.key, self.born)
    }
}

/// Identifiers strictly increase along the chain and stay below `next_id`.
pub open spec fn ids_sorted(nodes: Seq<Node>, next_id: u64) -> bool {
    &&& forall|i: int, j: int| 0 <= i < j < nodes.len() ==> nodes[i].id < nodes[j].id
    &&& forall|i: int| 0 <= i < nodes.len() ==> nodes[i].id < next_id
}

/// The chain with `id`'s record (if any) tombstoned.
pub open spec fn tombstoned(nodes: Seq<Node>, id: u64) -> Seq<Node> {
    nodes.map_values(|n: Node| if n.id == id { Node { deleted: true, ..n } } else { n })
}

/// The recency chain. The newest record stands last.
pub struct List {
    pub(crate) nodes: Vec<Node>,
    pub(crate) next_id: u64,
}

impl List {
    pub closed spec fn view(&self) -> Seq<Node> {
        self.nodes@
    }

    /// The identifier the next record will get.
    pub closed spec fn next_id(&self) -> u64 {
        self.next_id
    }

    pub open spec fn wf(&self) -> bool {
        ids_sorted(self@, self.next_id())
    }

    /// An empty chain.
    pub fn new() -> (r: List)
        ensures
            r.wf(),
            r@ == Seq::<Node>::empty(),
            r.next_id() == 0,
    {
        List { nodes: Vec::new(), next_id: 0 }
    }

    pub fn len(&self) -> (r: usize)
        ensures
            r == self@.len(),
    {
        self.nodes.len()
    }

    /// Record an access to `key` at time `born` as the newest record, and hand
    /// back its identifier. Fails only when identifiers are used up.
    pub fn prepend(&mut self, key: u64, born: u64) -> (r: Result<u64, Error>)
        requires
            old(self).wf(),
        ensures
            final(self).wf(),
            old(self).next_id() < u64::MAX <==> r is Ok,
            r is Ok ==> {
                &&& r->Ok_0 == old(self).next_id()
                &&& final(self).next_id() == old(self).next_id() + 1
                &&& final(self)@ == old(self)@.push(
                    Node { id: old(self).next_id(), key, born, deleted: false },
                )
            },
            r is Err ==> r == Err::<u64, Error>(Error::Exhausted) && *final(self) == *old(self),
    {
        if self.next_id == u64::MAX {
            return Err(Error::Exhausted);
        }
        let id = self.next_id;
        self.nodes.push(Node::new_node(id, key, born));
        self.next_id = id + 1;
        Ok(id)
    }

    /// Position of the record with identifier `id`, by binary search.
    pub fn find(&self, id: u64) -> (r: Option<usize>)
        requires
            self.wf(),
        ensures
            match r {
                Some(i) => i < self@.len() && self@[i as int].id == id,
                None => forall|i: int| 0 <= i < self@.len() ==> self@[i].id != id,
            },
    {
        let mut lo: usize = 0;
        let mut hi: usize = self.nodes.len();
        while lo < hi
            invariant
                self.wf(),
                lo <= hi <= self.nodes@.len(),
                forall|i: int| 0 <= i < lo ==> self.nodes@[i].id < id,
                forall|i: int| hi <= i < self.nodes@.len() ==> self.nodes@[i].id > id,
            decreases hi - lo,
        {
            let mid = lo + (hi - lo) / 2;
            let m = self.nodes[mid].id;
            if m == id {
                return Some(mid);
            } else if m < id {
                lo = mid + 1;
            } else {
                hi = mid;
            }
        }
        None
    }

    /// Tombstone the record with identifier `id`; tells whether there was one.
    pub fn delete(&mut self, id: u64) -> (r: bool)
        requires
            old(self).wf(),
        ensures
            final(self).wf(),
            final(self).next_id() == old(self).next_id(),
            final(self)@ == tombstoned(old(self)@, id),
            r <==> exists|i: int| 0 <= i < old(self)@.len() && old(self)@[i].id == id,
    {
        match self.find(id) {
            Some(i) => {
                let mut n = self.nodes[i];
                n.delete();
                self.nodes.set(i, n);
                proof {
                    assert(self.nodes@ =~= tombstoned(old(self)@, id));
                }
                true
            },
            None => {
                proof {
                    assert(self.nodes@ =~= tombstoned(old(self)@, id));
                }
                false
            },
        }
    }
    /// Hand the whole chain out, leaving it empty; identifiers keep counting.
    pub(crate) fn take_nodes(&mut self) -> (r: Vec<Node>)
        ensures
            r@ == old(self)@,
            final(self)@ == Seq::<Node>::empty(),
            final(self).next_id() == old(self).next_id(),
    {
        let mut r: Vec<Node> = Vec::new();
        core::mem::swap(&mut r, &mut self.nodes);
        r
    }

    /// Install `nodes` as the chain.
    pub(crate) fn put_nodes(&mut self, nodes: Vec<Node>)
        ensures
            final(self)@ == nodes@,
            final(self).next_id() == old(self).next_id(),
    {
        self.nodes = nodes;
    }
}

} // verus!
