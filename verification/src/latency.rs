//! Ping round-trip bookkeeping: outstanding pings, a sliding window of the
//! most recent round-trip times, and monotonic lost/received counters. The
//! caller supplies the clock as a monotonic millisecond reading.

use vstd::prelude::*;
use crate::messages::FrameIndex;

verus! {

/// Most timings the sliding window keeps.
pub const TIMING_WINDOW: usize = 100;

/// Milliseconds elapsed between a send and now, clamped below at zero.
pub open spec fn spec_elapsed(now: u64, sent: u64) -> int {
    if now >= sent {
        now - sent
    } else {
        0
    }
}

/// The outstanding pings among the first `j` that have not timed out, in
/// order.
pub open spec fn fresh_prefix(q: Seq<(FrameIndex, u64)>, now: u64, timeout: u64, j: int) -> Seq<(
    FrameIndex, u64)>
    decreases j,
{
    if j <= 0 {
        Seq::empty()
    } else {
        let p = fresh_prefix(q, now, timeout, j - 1);
        if spec_elapsed(now, q[j - 1].1) < timeout {
            p.push(q[j - 1])
        } else {
            p
        }
    }
}

/// First index at or after `k` whose ping carries `frame`, or -1.
pub open spec fn find_frame_from(q: Seq<(FrameIndex, u64)>, frame: FrameIndex, k: int) -> int
    decreases q.len() - k,
{
    if k < 0 || k >= q.len() {
        -1
    } else if q[k].0 == frame {
        k
    } else {
        find_frame_from(q, frame, k + 1)
    }
}

/// Sum of the first `j` timings.
pub open spec fn timing_sum(ts: Seq<u64>, j: int) -> int
    decreases j,
{
    if j <= 0 {
        0
    } else {
        timing_sum(ts, j - 1) + ts[j - 1]
    }
}

/// The timing window after recording `d`: the oldest entry leaves when the
/// window is full.
pub open spec fn spec_record(ts: Seq<u64>, d: u64) -> Seq<u64> {
    if ts.len() < TIMING_WINDOW {
        ts.push(d)
    } else {
        ts.drop_first().push(d)
    }
}

/// How one `recv` call relates the buffer's pre- and post-states: timed
/// out pings leave and count lost, and a matching ping (if any) leaves the
/// outstanding set and its round-trip time enters the window.
pub open spec fn recv_relates(pre: LatencyBuffer, post: LatencyBuffer, frame: FrameIndex,
    now_ms: u64, r: Option<u64>) -> bool {
    let kept = fresh_prefix(pre.buffer@, now_ms, pre.timeout_ms, pre.buffer@.len() as int);
    let lost = pre.buffer@.len() - kept.len();
    let fi = find_frame_from(kept, frame, 0);
    post.timeout_ms == pre.timeout_ms && post.lost_packet_count == (if pre.lost_packet_count
        + lost <= u64::MAX {
        pre.lost_packet_count + lost
    } else {
        u64::MAX as int
    }) && (if fi == -1 {
        r is None && post.buffer@ == kept && post.timings@ == pre.timings@
            && post.recvd_packet_count == pre.recvd_packet_count
    } else {
        let d = spec_elapsed(now_ms, kept[fi].1);
        r == Some(d as u64) && post.buffer@ == kept.update(fi, kept.last()).drop_last()
            && post.timings@ == spec_record(pre.timings@, d as u64) && post.recvd_packet_count
            == (if pre.recvd_packet_count < u64::MAX {
            pre.recvd_packet_count + 1
        } else {
            u64::MAX as int
        })
    })
}

/// The arithmetic mean the pacing formula uses.
pub open spec fn spec_average_ms(lb: LatencyBuffer) -> int {
    if lb.timings@.len() == 0 {
        0
    } else {
        timing_sum(lb.timings@, lb.timings@.len() as int) / lb.timings@.len() as int
    }
}

pub struct LatencyBuffer {
    pub buffer: Vec<(FrameIndex, u64)>,
    pub timings: Vec<u64>,
    pub timeout_ms: u64,
    pub lost_packet_count: u64,
    pub recvd_packet_count: u64,
}

impl LatencyBuffer {
    /// Well-formedness: the window is bounded and holds only durations
    /// below the timeout, which itself is small enough that a window of
    /// sums cannot overflow.
    pub open spec fn wf(self) -> bool {
        self.timings@.len() <= TIMING_WINDOW && 0 < self.timeout_ms <= 1_000_000_000
            && forall|i: int| 0 <= i < self.timings@.len() ==> self.timings@[i]
            < self.timeout_ms
    }

    pub fn with_timeout(timeout_ms: u64) -> (r: LatencyBuffer)
        requires
            0 < timeout_ms <= 1_000_000_000,
        ensures
            r.wf(),
            r.buffer@ =~= Seq::<(FrameIndex, u64)>::empty(),
            r.timings@ =~= Seq::<u64>::empty(),
            r.timeout_ms == timeout_ms,
            r.lost_packet_count == 0,
            r.recvd_packet_count == 0,
    {
        LatencyBuffer {
            buffer: Vec::new(),
            timings: Vec::new(),
            timeout_ms,
            lost_packet_count: 0,
            recvd_packet_count: 0,
        }
    }

    /// Record an outbound ping for `index`, sent at `now_ms`.
    pub fn send(&mut self, index: FrameIndex, now_ms: u64)
        requires
            old(self).wf(),
        ensures
            final(self).wf(),
            final(self).buffer@ == old(self).buffer@.push((index, now_ms)),
            final(self).timings@ == old(self).timings@,
            final(self).timeout_ms == old(self).timeout_ms,
            final(self).lost_packet_count == old(self).lost_packet_count,
            final(self).recvd_packet_count == old(self).recvd_packet_count,
    {
        self.buffer.push((index, now_ms));
    }

    /// Process a pong for `frame` at `now_ms`: timed-out pings are dropped
    /// and counted lost; a matching outstanding ping yields its round-trip
    /// time, which enters the timing window.
    pub fn recv(&mut self, frame: FrameIndex, now_ms: u64) -> (r: Option<u64>)
        requires
            old(self).wf(),
        ensures
            final(self).wf(),
            recv_relates(*old(self), *final(self), frame, now_ms, r),
    {
        let ghost q0 = self.buffer@;
        let timeout = self.timeout_ms;
        let n = self.buffer.len();
        let mut kept: Vec<(FrameIndex, u64)> = Vec::new();
        let mut i: usize = 0;
        while i < n
            invariant
                self.buffer@ == q0,
                n == q0.len(),
                i <= n,
                timeout == self.timeout_ms,
                kept@ == fresh_prefix(q0, now_ms, timeout, i as int),
                kept@.len() <= i as int,
            decreases n - i,
        {
            let (f, sent) = (self.buffer[i].0, self.buffer[i].1);
            let elapsed: u64 = if now_ms >= sent {
                now_ms - sent
            } else {
                0
            };
            if elapsed < timeout {
                kept.push((f, sent));
            }
            i = i + 1;
        }
        let lost = n - kept.len();
        if self.lost_packet_count <= u64::MAX - (lost as u64) {
            self.lost_packet_count = self.lost_packet_count + lost as u64;
        } else {
            self.lost_packet_count = u64::MAX;
        }
        self.buffer = kept;
        let ghost kq = self.buffer@;
        proof {
            lemma_fresh_below_timeout(q0, now_ms, timeout, q0.len() as int);
        }
        let m = self.buffer.len();
        let mut k: usize = 0;
        while k < m
            invariant
                self.buffer@ == kq,
                m == kq.len(),
                k <= m,
                self.timeout_ms == old(self).timeout_ms,
                0 < self.timeout_ms <= 1_000_000_000,
                self.timings@ == old(self).timings@,
                self.timings@.len() <= TIMING_WINDOW,
                forall|i: int| 0 <= i < self.timings@.len() ==> self.timings@[i]
                    < self.timeout_ms,
                self.recvd_packet_count == old(self).recvd_packet_count,
                kq == fresh_prefix(old(self).buffer@, now_ms, self.timeout_ms, old(
                self).buffer@.len() as int),
                self.lost_packet_count as int == (if old(self).lost_packet_count + (old(
                self).buffer@.len() - kq.len()) <= u64::MAX {
                    old(self).lost_packet_count + (old(self).buffer@.len() - kq.len())
                } else {
                    u64::MAX as int
                }),
                forall|i: int| 0 <= i < kq.len() ==> spec_elapsed(now_ms, #[trigger] kq[i].1)
                    < self.timeout_ms,
                find_frame_from(kq, frame, 0) == find_frame_from(kq, frame, k as int),
            decreases m - k,
        {
            if self.buffer[k].0 == frame {
                let sent = self.buffer[k].1;
                let d: u64 = if now_ms >= sent {
                    now_ms - sent
                } else {
                    0
                };
                proof {
                    assert(find_frame_from(kq, frame, k as int) == k as int);
                    assert(d as int == spec_elapsed(now_ms, kq[k as int].1));
                    assert(d < self.timeout_ms);
                }
                let ghost t0 = self.timings@;
                if self.timings.len() >= TIMING_WINDOW {
                    let _evicted = self.timings.remove(0);
                }
                self.timings.push(d);
                proof {
                    if t0.len() >= TIMING_WINDOW {
                        assert(t0.remove(0) =~= t0.drop_first());
                    }
                    assert(self.timings@ == spec_record(t0, d));
                }
                self.buffer.swap_remove(k);
                if self.recvd_packet_count < u64::MAX {
                    self.recvd_packet_count = self.recvd_packet_count + 1;
                }
                return Some(d);
            }
            k = k + 1;
        }
        None
    }

    /// The arithmetic mean of the recorded round-trip times, zero when
    /// nothing has been recorded.
    pub fn average_latency_ms(&self) -> (r: u64)
        requires
            self.wf(),
        ensures
            r == spec_average_ms(*self),
    {
        let n = self.timings.len();
        if n == 0 {
            return 0;
        }
        let mut sum: u64 = 0;
        let mut j: usize = 0;
        while j < n
            invariant
                self.wf(),
                n == self.timings@.len(),
                j <= n,
                sum == timing_sum(self.timings@, j as int),
                sum <= j * 1_000_000_000,
            decreases n - j,
        {
            proof {
                assert(self.timings@[j as int] < 1_000_000_000);
            }
            sum = sum + self.timings[j];
            j = j + 1;
        }
        sum / (n as u64)
    }

    pub fn lost_count(&self) -> (r: u64)
        ensures
            r == self.lost_packet_count,
    {
        self.lost_packet_count
    }

    pub fn recvd_count(&self) -> (r: u64)
        ensures
            r == self.recvd_packet_count,
    {
        self.recvd_packet_count
    }
}

/// Every entry the freshness pass keeps is below the timeout.
proof fn lemma_fresh_below_timeout(q: Seq<(FrameIndex, u64)>, now: u64, timeout: u64, j: int)
    ensures
        forall|i: int| 0 <= i < fresh_prefix(q, now, timeout, j).len() ==> spec_elapsed(now,
            #[trigger] fresh_prefix(q, now, timeout, j)[i].1) < timeout,
    decreases j,
{
    if j > 0 {
        lemma_fresh_below_timeout(q, now, timeout, j - 1);
        let p = fresh_prefix(q, now, timeout, j - 1);
        let f = fresh_prefix(q, now, timeout, j);
        assert forall|i: int| 0 <= i < f.len() implies spec_elapsed(now, #[trigger] f[i].1)
            < timeout by {
            if spec_elapsed(now, q[j - 1].1) < timeout {
                assert(f == p.push(q[j - 1]));
                if i < p.len() {
                    assert(f[i] == p[i]);
                } else {
                    assert(f[i] == q[j - 1]);
                }
            } else {
                assert(f[i] == p[i]);
            }
        }
    }
}

} // verus!
