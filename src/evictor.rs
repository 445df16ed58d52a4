//! Eviction policy: how long the evictor pauses between sweeps, how many
//! surplus entries a sweep must remove, and which records are too old.

use vstd::prelude::*;

verus! {

/// Longest pause between two sweeps, in microseconds.
pub const MAX_SLEEP: u64 = 10_000;

/// Limits that an evictor enforces on one cache.
#[derive(Debug, Clone, Copy, PartialEq, Eq, Structural)]
pub struct Evictor {
    /// Number of entries above which surplus ones are evicted.
    pub max_entries: usize,
    /// Memory footprint that counts towards the pacing, if limited.
    pub max_memory: Option<usize>,
    /// Age in microseconds beyond which an entry is evicted, if limited.
    pub max_old: Option<u64>,
}

/// Pause for one occupancy ratio `used / limit`: none once the ratio reaches
/// one (a zero limit counts as full), else `MAX_SLEEP * (1 - ratio)`, rounded
/// down.
pub open spec fn pause_of(used: nat, limit: nat) -> Option<nat> {
    if limit == 0 || used >= limit {
        None
    } else {
        Some(((MAX_SLEEP as int) * ((limit - used) as int) / (limit as int)) as nat)
    }
}

/// Pause for the larger of the two occupancy ratios.
pub open spec fn pause_for(ev: Evictor, entries: nat, memory: nat) -> Option<nat> {
    let by_entries = pause_of(entries, ev.max_entries as nat);
    let by_memory = match ev.max_memory {
        Some(m) => pause_of(memory, m as nat),
        None => Some(MAX_SLEEP as nat),
    };
    match (by_entries, by_memory) {
        (Some(a), Some(b)) => Some(if a <= b { a } else { b }),
        _ => None,
    }
}

/// Whether a record born at `born` is older than the age limit at `now`.
pub open spec fn is_expired(ev: Evictor, born: u64, now: u64) -> bool {
    match ev.max_old {
        Some(d) => now > born && now - born > d,
        None => false,
    }
}

/// Number of entries above the count limit.
pub open spec fn surplus(ev: Evictor, entries: nat) -> nat {
    if entries > ev.max_entries {
        (entries - ev.max_entries) as nat
    } else {
        0
    }
}

fn pause_one(used: usize, limit: usize) -> (r: Option<u64>)
    ensures
        match (r, pause_of(used as nat, limit as nat)) {
            (Some(a), Some(b)) => a == b,
            (None, None) => true,
            _ => false,
        },
{
    if limit == 0 || used >= limit {
        None
    } else {
        let num: u128 = (MAX_SLEEP as u128) * ((limit - used) as u128);
        let q: u128 = num / (limit as u128);
        proof {
            let s = MAX_SLEEP as int;
            let d = (limit - used) as int;
            let l = limit as int;
            assert(0 <= d <= l && 0 < l);
            assert(s * d <= s * l) by (nonlinear_arith)
                requires
                    0 <= d <= l,
                    0 <= s,
            ;
            assert((s * d) / l <= s) by (nonlinear_arith)
                requires
                    s * d <= s * l,
                    0 < l,
                    0 <= s * d,
            ;
        }
        Some(q as u64)
    }
}

impl Evictor {
    /// How long to pause before the next sweep, in microseconds, given the
    /// current entry count and memory footprint; `None` means sweep at once.
    pub fn sleep_for(&self, entries: usize, memory: usize) -> (r: Option<u64>)
        ensures
            match (r, pause_for(*self, entries as nat, memory as nat)) {
                (Some(a), Some(b)) => a == b,
                (None, None) => true,
                _ => false,
            },
    {
        let a = pause_one(entries, self.max_entries);
        let b = match self.max_memory {
            Some(m) => pause_one(memory, m),
            None => Some(MAX_SLEEP),
        };
        match (a, b) {
            (Some(x), Some(y)) => Some(if x <= y { x } else { y }),
            _ => None,
        }
    }

    /// How many surplus entries a sweep must evict.
    pub fn num_evicts(&self, entries: usize) -> (r: usize)
        ensures
            r == surplus(*self, entries as nat),
    {
        if self.max_entries < entries {
            entries - self.max_entries
        } else {
            0
        }
    }

    /// Whether a record born at `born` has outlived the age limit at `now`.
    pub fn expired(&self, born: u64, now: u64) -> (r: bool)
        ensures
            r == is_expired(*self, born, now),
    {
        match self.max_old {
            Some(d) => now > born && now - born > d,
            None => false,
        }
    }
}

} // verus!
