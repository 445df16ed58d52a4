//! An owned chain of access records, newest first, hung from a sentinel.

use vstd::prelude::*;

verus! {

/// A link of the chain: the sentinel `S` that holds the chain, an access
/// record `T`, or the terminal `N`.
#[allow(inconsistent_fields)]
pub enum Access<K> {
    S { next: Box<Access<K>> },
    T { key: K, born: u64, deleted: bool, next: Option<Box<Access<K>>> },
    N,
}

impl<K> Access<K> {
    /// The records reachable from this link, in chain order, each as key,
    /// timestamp and tombstone flag.
    pub open spec fn chain(self) -> Seq<(K, u64, bool)>
        decreases self,
    {
        match self {
            Access::S { next } => (*next).chain(),
            Access::T { key, born, deleted, next } => seq![(key, born, deleted)] + match next {
                Some(n) => (*n).chain(),
                None => Seq::empty(),
            },
            Access::N => Seq::empty(),
        }
    }

    /// A sentinel over an empty chain.
    pub fn new_list() -> (r: Access<K>)
        ensures
            r is S,
            *r->S_next == Access::<K>::N,
            r.chain() == Seq::<(K, u64, bool)>::empty(),
    {
        let r = Access::S { next: Box::new(Access::N) };
        proof {
            reveal_with_fuel(Access::chain, 2);
        }
        r
    }

    /// A live record of `key` made at time `born`, linked to nothing.
    pub fn new(key: K, born: u64) -> (r: Box<Access<K>>)
        ensures
            *r == (Access::T { key, born, deleted: false, next: None }),
    {
        Box::new(Access::T { key, born, deleted: false, next: None })
    }

    /// Tombstone this record.
    pub fn delete(&mut self)
        requires
            *old(self) is T,
        ensures
            *final(self) == (Access::T {
                key: old(self)->T_key,
                born: old(self)->T_born,
                deleted: true,
                next: old(self)->T_next,
            }),
    {
        match self {
            Access::T { deleted, .. } => {
                *deleted = true;
            },
            _ => {},
        }
    }

    /// Detach and hand back the rest of the chain after this record.
    pub fn take_next(&mut self) -> (r: Box<Access<K>>)
        requires
            *old(self) is T,
            old(self)->T_next is Some,
        ensures
            r == old(self)->T_next->Some_0,
            *final(self) == (Access::T {
                key: old(self)->T_key,
                born: old(self)->T_born,
                deleted: old(self)->T_deleted,
                next: None,
            }),
    {
        match self {
            Access::T { next, .. } => {
                let mut r: Option<Box<Access<K>>> = None;
                core::mem::swap(&mut r, next);
                match r {
                    Some(b) => b,
                    None => Box::new(Access::N),
                }
            },
            _ => Box::new(Access::N),
        }
    }

    /// Link `access` as the rest of the chain after this record.
    pub fn set_next(&mut self, access: Box<Access<K>>)
        requires
            *old(self) is T,
        ensures
            *final(self) == (Access::T {
                key: old(self)->T_key,
                born: old(self)->T_born,
                deleted: old(self)->T_deleted,
                next: Some(access),
            }),
    {
        match self {
            Access::T { next, .. } => {
                *next = Some(access);
            },
            _ => {},
        }
    }

    /// Install the record `node` at the head of the chain that this sentinel
    /// holds.
    pub fn prepend(&mut self, node: Box<Access<K>>)
        requires
            *old(self) is S,
            *node is T,
        ensures
            *final(self) is S,
            final(self).chain() == seq![(node->T_key, node->T_born, node->T_deleted)] + old(
                self,
            ).chain(),
    {
        let mut node = node;
        proof {
            reveal_with_fuel(Access::chain, 3);
        }
        match self {
            Access::S { next } => {
                let mut head: Box<Access<K>> = Box::new(Access::N);
                core::mem::swap(&mut head, next);
                node.set_next(head);
                *next = node;
            },
            _ => {},
        }
    }
}

} // verus!
