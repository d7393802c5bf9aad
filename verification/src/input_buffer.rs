//! The frame-ordered buffer of future-dated input events. Entries are kept
//! sorted by frame index, with ties kept in insertion order, so draining
//! yields events in non-decreasing frame order.

use vstd::prelude::*;
use crate::messages::{AddBodyEvent, FrameIndex, IndexedState};

verus! {

/// How far into the future local input events are dated.
pub const INPUT_BUFFER_FRAMES: FrameIndex = 7;

pub type Input = IndexedState<AddBodyEvent>;

/// Frame indices never decrease along the buffer.
pub open spec fn sorted_by_frame(s: Seq<Input>) -> bool {
    forall|i: int, j: int| 0 <= i < j < s.len() ==> s[i].frame_index <= s[j].frame_index
}

/// The first index whose frame is strictly beyond `f`, at or after `k`,
/// or the length: where a stable insert of an `f`-dated event lands.
pub open spec fn insert_pos_from(s: Seq<Input>, f: FrameIndex, k: int) -> int
    decreases s.len() - k,
{
    if k < 0 || k >= s.len() {
        s.len() as int
    } else if s[k].frame_index > f {
        k
    } else {
        insert_pos_from(s, f, k + 1)
    }
}

pub open spec fn insert_pos(s: Seq<Input>, f: FrameIndex) -> int {
    insert_pos_from(s, f, 0)
}

pub proof fn lemma_insert_pos_spec(s: Seq<Input>, f: FrameIndex, k: int)
    requires
        0 <= k <= s.len(),
    ensures
        k <= insert_pos_from(s, f, k) <= s.len(),
        forall|m: int| k <= m < insert_pos_from(s, f, k) ==> s[m].frame_index <= f,
        insert_pos_from(s, f, k) < s.len() ==> s[insert_pos_from(s, f, k)].frame_index > f,
    decreases s.len() - k,
{
    if k < s.len() && s[k].frame_index <= f {
        lemma_insert_pos_spec(s, f, k + 1);
    }
}

/// A min-ordered buffer of input events keyed on frame index, ties stable.
#[derive(Clone, Debug)]
pub struct InputBuffer {
    pub entries: Vec<Input>,
}

impl InputBuffer {
    pub open spec fn wf(self) -> bool {
        sorted_by_frame(self.entries@)
    }

    pub fn new() -> (r: InputBuffer)
        ensures
            r.entries@ =~= Seq::<Input>::empty(),
            r.wf(),
    {
        InputBuffer { entries: Vec::new() }
    }

    pub fn len(&self) -> (r: usize)
        ensures
            r == self.entries@.len(),
    {
        self.entries.len()
    }

    /// Insert an event after every event of its frame or an earlier one.
    pub fn push(&mut self, input: Input)
        requires
            old(self).wf(),
        ensures
            final(self).wf(),
            final(self).entries@ == old(self).entries@.insert(insert_pos(old(self).entries@,
                input.frame_index), input),
            final(self).entries@.len() == old(self).entries@.len() + 1,
    {
        let ghost s = self.entries@;
        let f = input.frame_index;
        let n = self.entries.len();
        let mut k: usize = 0;
        while k < n && self.entries[k].frame_index <= f
            invariant
                self.entries@ == s,
                n == s.len(),
                k <= n,
                insert_pos(s, f) == insert_pos_from(s, f, k as int),
            decreases n - k,
        {
            k = k + 1;
        }
        proof {
            // the scan stopped exactly at the insertion point
            assert(insert_pos_from(s, f, k as int) == k as int);
            lemma_insert_pos_spec(s, f, 0);
        }
        self.entries.insert(k, input);
        proof {
            let t = self.entries@;
            let p = k as int;
            assert(forall|m: int| 0 <= m < p ==> t[m] == s[m]);
            assert(t[p] == input);
            assert(forall|m: int| p < m < t.len() ==> t[m] == s[m - 1]);
            assert forall|i: int, j: int| 0 <= i < j < t.len() implies t[i].frame_index
                <= t[j].frame_index by {
                if i < p && j == p {
                    assert(s[i].frame_index <= f);
                } else if i == p && j > p {
                    assert(t[j] == s[j - 1]);
                    assert(s[j - 1].frame_index > f);
                }
            }
        }
    }

    /// Pop the earliest event if it is due at or before `index`.
    pub fn next(&mut self, index: FrameIndex) -> (r: Option<Input>)
        requires
            old(self).wf(),
        ensures
            final(self).wf(),
            match r {
                Some(e) => old(self).entries@.len() > 0 && e == old(self).entries@[0]
                    && e.frame_index <= index && final(self).entries@ == old(
                self).entries@.drop_first(),
                None => final(self).entries@ == old(self).entries@ && (old(self).entries@.len()
                    == 0 || old(self).entries@[0].frame_index > index),
            },
    {
        if self.entries.len() == 0 {
            return None;
        }
        if self.entries[0].frame_index <= index {
            let e = self.entries.remove(0);
            proof {
                assert(self.entries@ =~= old(self).entries@.drop_first());
                assert(sorted_by_frame(self.entries@));
            }
            Some(e)
        } else {
            None
        }
    }
}

/// Drain order: the head of a sorted buffer is a lower bound of every later
/// entry, and removing it keeps the buffer sorted — so successive `next`
/// calls yield events in non-decreasing frame order.
pub proof fn lemma_drain_order(s: Seq<Input>)
    requires
        sorted_by_frame(s),
        s.len() > 0,
    ensures
        forall|m: int| 0 < m < s.len() ==> s[0].frame_index <= #[trigger] s[m].frame_index,
        sorted_by_frame(s.drop_first()),
{
    assert(forall|m: int| 0 <= m < s.drop_first().len() ==> s.drop_first()[m] == s[m + 1]);
}

} // verus!
