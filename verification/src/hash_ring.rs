//! The client's bounded ring of `(frame, local checksum)` entries, kept for
//! comparison against the server's beacons. It retains the most recent
//! `HASH_RING_ENTRIES` records; older ones fall off the front.

use vstd::prelude::*;
use crate::messages::FrameIndex;

verus! {

/// How many recent frames the ring retains: the input horizon plus a
/// one-second latency budget at sixty frames per second.
pub const HASH_RING_ENTRIES: usize = 60;

/// First index at or after `k` holding exactly `(frame, hash)`, or -1.
pub open spec fn find_entry_from(s: Seq<(FrameIndex, u64)>, frame: FrameIndex, hash: u64,
    k: int) -> int
    decreases s.len() - k,
{
    if k < 0 || k >= s.len() {
        -1
    } else if s[k].0 == frame && s[k].1 == hash {
        k
    } else {
        find_entry_from(s, frame, hash, k + 1)
    }
}

/// First index at or after `k` holding `frame` (any hash), or -1.
pub open spec fn find_ring_frame_from(s: Seq<(FrameIndex, u64)>, frame: FrameIndex, k: int) -> int
    decreases s.len() - k,
{
    if k < 0 || k >= s.len() {
        -1
    } else if s[k].0 == frame {
        k
    } else {
        find_ring_frame_from(s, frame, k + 1)
    }
}

/// How many of the first `j` entries lie before `cutoff`.
pub open spec fn count_below(s: Seq<(FrameIndex, u64)>, cutoff: FrameIndex, j: int) -> int
    decreases j,
{
    if j <= 0 {
        0
    } else {
        count_below(s, cutoff, j - 1) + (if s[j - 1].0 < cutoff {
            1int
        } else {
            0int
        })
    }
}

pub struct HashBuffer {
    pub entries: Vec<(FrameIndex, u64)>,
}

impl HashBuffer {
    pub open spec fn wf(self) -> bool {
        self.entries@.len() <= HASH_RING_ENTRIES
    }

    pub fn new() -> (r: HashBuffer)
        ensures
            r.wf(),
            r.entries@ =~= Seq::<(FrameIndex, u64)>::empty(),
    {
        HashBuffer { entries: Vec::new() }
    }

    /// Record a frame's checksum; the oldest record leaves when the ring is
    /// full.
    pub fn insert(&mut self, frame_index: FrameIndex, hash: u64)
        requires
            old(self).wf(),
        ensures
            final(self).wf(),
            final(self).entries@ == (if old(self).entries@.len() < HASH_RING_ENTRIES {
                old(self).entries@.push((frame_index, hash))
            } else {
                old(self).entries@.push((frame_index, hash)).drop_first()
            }),
    {
        let ghost e0 = self.entries@;
        if self.entries.len() >= HASH_RING_ENTRIES {
            let _evicted = self.entries.remove(0);
            proof {
                assert(e0.remove(0) =~= e0.drop_first());
            }
        }
        self.entries.push((frame_index, hash));
        proof {
            if e0.len() >= HASH_RING_ENTRIES {
                assert(e0.drop_first().push((frame_index, hash)) =~= e0.push((frame_index,
                    hash)).drop_first());
            }
        }
    }

    /// Whether the ring holds exactly this `(frame, hash)` record.
    pub fn contains(&self, frame_index: FrameIndex, hash: u64) -> (r: bool)
        ensures
            r == (find_entry_from(self.entries@, frame_index, hash, 0) != -1),
    {
        let ghost s = self.entries@;
        let n = self.entries.len();
        let mut k: usize = 0;
        while k < n
            invariant
                self.entries@ == s,
                n == s.len(),
                k <= n,
                find_entry_from(s, frame_index, hash, 0) == find_entry_from(s, frame_index,
                    hash, k as int),
            decreases n - k,
        {
            if self.entries[k].0 == frame_index && self.entries[k].1 == hash {
                return true;
            }
            k = k + 1;
        }
        false
    }

    /// Remove and return the first exact `(frame, hash)` record, if any.
    pub fn take(&mut self, frame_index: FrameIndex, hash: u64) -> (r: Option<(FrameIndex, u64)>)
        requires
            old(self).wf(),
        ensures
            final(self).wf(),
            ({
                let fi = find_entry_from(old(self).entries@, frame_index, hash, 0);
                if fi == -1 {
                    r is None && final(self).entries@ == old(self).entries@
                } else {
                    r == Some((frame_index, hash)) && final(self).entries@ == old(
                    self).entries@.update(fi, old(self).entries@.last()).drop_last()
                }
            }),
    {
        let ghost s = self.entries@;
        let n = self.entries.len();
        let mut k: usize = 0;
        while k < n
            invariant
                self.entries@ == s,
                s == old(self).entries@,
                n == s.len(),
                n <= HASH_RING_ENTRIES,
                k <= n,
                find_entry_from(s, frame_index, hash, 0) == find_entry_from(s, frame_index,
                    hash, k as int),
            decreases n - k,
        {
            if self.entries[k].0 == frame_index && self.entries[k].1 == hash {
                let entry = self.entries.swap_remove(k);
                return Some(entry);
            }
            k = k + 1;
        }
        None
    }

    /// The checksum recorded for `frame_index`, if the ring still holds it.
    pub fn lookup_frame(&self, frame_index: FrameIndex) -> (r: Option<u64>)
        ensures
            ({
                let fi = find_ring_frame_from(self.entries@, frame_index, 0);
                if fi == -1 {
                    r is None
                } else {
                    r == Some(self.entries@[fi].1)
                }
            }),
    {
        let ghost s = self.entries@;
        let n = self.entries.len();
        let mut k: usize = 0;
        while k < n
            invariant
                self.entries@ == s,
                n == s.len(),
                k <= n,
                find_ring_frame_from(s, frame_index, 0) == find_ring_frame_from(s, frame_index,
                    k as int),
            decreases n - k,
        {
            if self.entries[k].0 == frame_index {
                return Some(self.entries[k].1);
            }
            k = k + 1;
        }
        None
    }

    /// Remove the first record for `frame_index`, whatever its checksum.
    pub fn remove_frame(&mut self, frame_index: FrameIndex)
        requires
            old(self).wf(),
        ensures
            final(self).wf(),
            ({
                let fi = find_ring_frame_from(old(self).entries@, frame_index, 0);
                if fi == -1 {
                    final(self).entries@ == old(self).entries@
                } else {
                    final(self).entries@ == old(self).entries@.update(fi, old(
                    self).entries@.last()).drop_last()
                }
            }),
    {
        let ghost s = self.entries@;
        let n = self.entries.len();
        let mut k: usize = 0;
        while k < n
            invariant
                self.entries@ == s,
                s == old(self).entries@,
                n == s.len(),
                n <= HASH_RING_ENTRIES,
                k <= n,
                find_ring_frame_from(s, frame_index, 0) == find_ring_frame_from(s, frame_index,
                    k as int),
            decreases n - k,
        {
            if self.entries[k].0 == frame_index {
                let _entry = self.entries.swap_remove(k);
                return;
            }
            k = k + 1;
        }
    }

    /// How many recorded frames before `cutoff` were never matched by a
    /// beacon.
    pub fn unmatched_hashed(&self, cutoff: FrameIndex) -> (r: usize)
        ensures
            r == count_below(self.entries@, cutoff, self.entries@.len() as int),
    {
        let ghost s = self.entries@;
        let n = self.entries.len();
        let mut acc: usize = 0;
        let mut k: usize = 0;
        while k < n
            invariant
                self.entries@ == s,
                n == s.len(),
                k <= n,
                acc == count_below(s, cutoff, k as int),
                acc <= k,
            decreases n - k,
        {
            if self.entries[k].0 < cutoff {
                acc = acc + 1;
            }
            k = k + 1;
        }
        acc
    }
}

} // verus!
