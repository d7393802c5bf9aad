//! The per-frame client logic: drain inbound datagrams, probe latency,
//! pace against the server's acknowledged frame, and stamp local input
//! events into the near future.

use vstd::prelude::*;
use crate::body::Body;
use crate::codec::{
    decode_recv, decode_snapshot, encode_send, lemma_send_round_trip, parse_recv, parse_send,
    parse_snapshot, send_bytes, ParsedRecv,
};
use crate::hash_ring::{find_ring_frame_from, HashBuffer};
use crate::hashing::spec_state_hash;
use crate::input_buffer::{insert_pos, Input, INPUT_BUFFER_FRAMES};
use crate::latency::{recv_relates, spec_average_ms, timing_sum, LatencyBuffer};
use crate::messages::{AddBodyEvent, FrameIndex, IndexedState, Recv, Send};
use crate::simulation::{ids_below, masses_pos, spec_tick, unique_ids};
use crate::input_buffer::sorted_by_frame;
use crate::state::{spec_drain, State};

verus! {

/// Milliseconds after which an unanswered ping counts as lost.
pub const PING_TIMEOUT_MS: u64 = 1000;

/// What handling one inbound datagram did.
pub enum DatagramOutcome {
    /// The datagram did not decode; it is dropped.
    BadDecode,
    /// A pong was fed to the latency probe; the round-trip time when the
    /// ping was still outstanding.
    PongHandled(Option<u64>),
    /// A beacon for a frame the ring no longer (or not yet) holds.
    HashMissing(FrameIndex),
    /// A beacon disagreeing with the local checksum: divergence.
    HashMismatch(FrameIndex),
    /// A beacon matching the local checksum; the record is retired.
    HashMatched(FrameIndex),
    /// A remote input event went into the local buffer.
    InputQueued,
    /// The reserved full-state message; ignored.
    FullStateIgnored,
}

/// Whether the client stepped this frame or held back.
pub enum StepOutcome {
    /// The client ran ahead of the server's acknowledged frame and skipped.
    Skipped,
    /// The simulation advanced; how many stale inputs were discarded.
    Stepped(usize),
}

/// Well-formedness of a decoded state's contents.
pub open spec fn views_wf(bodies: Seq<Body>, nid: u64, q: Seq<Input>) -> bool {
    masses_pos(bodies) && unique_ids(bodies) && ids_below(bodies, nid) && sorted_by_frame(q)
}

/// The pacing target: the server's acknowledged frame plus the mean
/// latency in milliseconds divided by sixty, clamped to the frame range.
pub open spec fn spec_target(server_frame: FrameIndex, avg_ms: int) -> int {
    if server_frame + avg_ms / 60 <= FrameIndex::MAX as int {
        server_frame + avg_ms / 60
    } else {
        FrameIndex::MAX as int
    }
}

pub struct ClientState {
    pub inner: State,
    pub hash_ring: HashBuffer,
    pub latency: LatencyBuffer,
    /// The highest frame seen in any beacon from the server.
    pub server_frame: FrameIndex,
}

/// Adjacent order implies the full sorted predicate.
proof fn lemma_adjacent_sorted(q: Seq<Input>, i: int, j: int)
    requires
        forall|m: int| 0 <= m < q.len() - 1 ==> #[trigger] q[m].frame_index <= q[m
            + 1].frame_index,
        0 <= i <= j < q.len(),
    ensures
        q[i].frame_index <= q[j].frame_index,
    decreases j - i,
{
    if i < j {
        lemma_adjacent_sorted(q, i, j - 1);
        assert(q[j - 1].frame_index <= q[j].frame_index);
    }
}

/// Runtime check of a decoded state's invariants.
fn check_state_wf(st: &State) -> (r: bool)
    ensures
        r == views_wf(st.simulation.bodies@, st.simulation.next_id, st.input_buffer.entries@),
{
    let bodies = &st.simulation.bodies;
    let ghost s = bodies@;
    let n = bodies.len();
    let mut i: usize = 0;
    while i < n
        invariant
            bodies@ == s,
            s == st.simulation.bodies@,
            n == s.len(),
            i <= n,
            forall|m: int| 0 <= m < i as int ==> s[m].mass.bits() > 0 && s[m].id
                < st.simulation.next_id,
        decreases n - i,
    {
        if !bodies[i].mass.gt_zero() || bodies[i].id >= st.simulation.next_id {
            proof {
                assert(masses_pos(s) ==> s[i as int].mass.bits() > 0);
                assert(ids_below(s, st.simulation.next_id) ==> s[i as int].id
                    < st.simulation.next_id);
            }
            return false;
        }
        i = i + 1;
    }
    let mut a: usize = 0;
    while a < n
        invariant
            bodies@ == s,
            s == st.simulation.bodies@,
            n == s.len(),
            a <= n,
            forall|x: int, y: int| 0 <= x < y < s.len() && x < (a as int) ==> s[x].id != s[y].id,
        decreases n - a,
    {
        let mut b: usize = a + 1;
        while b < n
            invariant
                bodies@ == s,
                s == st.simulation.bodies@,
                n == s.len(),
                a < b,
                a < n,
                b <= n,
                forall|y: int| (a as int) < y < (b as int) ==> s[a as int].id != s[y].id,
            decreases n - b,
        {
            if bodies[a].id == bodies[b].id {
                proof {
                    assert(unique_ids(s) ==> s[a as int].id != s[b as int].id);
                }
                return false;
            }
            b = b + 1;
        }
        a = a + 1;
    }
    let q = &st.input_buffer.entries;
    let ghost qs = q@;
    let nq = q.len();
    let mut k: usize = 0;
    while k < nq && k + 1 < nq
        invariant
            q@ == qs,
            qs == st.input_buffer.entries@,
            s == st.simulation.bodies@,
            masses_pos(s),
            unique_ids(s),
            ids_below(s, st.simulation.next_id),
            nq == qs.len(),
            k <= nq,
            forall|m: int| 0 <= m < (k as int) && m < qs.len() - 1 ==> #[trigger] qs[m].frame_index
                <= qs[m + 1].frame_index,
        decreases nq - k,
    {
        if q[k].frame_index > q[k + 1].frame_index {
            proof {
                assert(sorted_by_frame(qs) ==> qs[k as int].frame_index <= qs[k as int
                    + 1].frame_index);
            }
            return false;
        }
        k = k + 1;
    }
    proof {
        assert forall|x: int, y: int| 0 <= x < y < qs.len() implies qs[x].frame_index
            <= qs[y].frame_index by {
            lemma_adjacent_sorted(qs, x, y);
        }
    }
    true
}

impl ClientState {
    pub open spec fn wf(self) -> bool {
        self.inner.wf() && self.hash_ring.wf() && self.latency.wf()
    }

    /// A fresh client starting from an empty simulation.
    pub fn new() -> (r: ClientState)
        ensures
            r.wf(),
            r.inner.simulation.bodies@ =~= Seq::<Body>::empty(),
            r.inner.frame_index == 0,
            r.server_frame == 0,
    {
        ClientState {
            inner: State::new(),
            hash_ring: HashBuffer::new(),
            latency: LatencyBuffer::with_timeout(PING_TIMEOUT_MS),
            server_frame: 0,
        }
    }

    /// Adopt a `(hash, state)` snapshot. The client refuses to initialize
    /// unless the embedded checksum matches the state it recomputes and the
    /// state's invariants hold.
    pub fn from_raw(bytes: &Vec<u8>) -> (r: Option<ClientState>)
        ensures
            match r {
                Some(c) => c.wf() && c.server_frame == c.inner.frame_index && parse_snapshot(
                    bytes@) == Some((spec_state_hash(c.inner.simulation.bodies@,
                    c.inner.frame_index), c.inner.simulation.bodies@,
                    c.inner.simulation.next_id, c.inner.frame_index,
                    c.inner.input_buffer.entries@)),
                None => match parse_snapshot(bytes@) {
                    None => true,
                    Some(t) => t.0 != spec_state_hash(t.1, t.3) || !views_wf(t.1, t.2, t.4),
                },
            },
    {
        match decode_snapshot(bytes) {
            None => None,
            Some((hash, st)) => {
                let recomputed = st.hash();
                if hash != recomputed {
                    return None;
                }
                if !check_state_wf(&st) {
                    return None;
                }
                let server_frame = st.frame_index;
                Some(ClientState {
                    inner: st,
                    hash_ring: HashBuffer::new(),
                    latency: LatencyBuffer::with_timeout(PING_TIMEOUT_MS),
                    server_frame,
                })
            },
        }
    }

    /// Handle one inbound datagram as the frame loop drains the mailbox.
    /// The contract is keyed on the parsed bytes; by `lemma_recv_round_trip`,
    /// any encoding of a server message parses to that message's contents,
    /// so for `bytes == recv_bytes(m)` the clauses below are exactly the
    /// dispatch prescribed for `m` itself.
    pub fn handle_datagram(&mut self, bytes: &Vec<u8>, now_ms: u64) -> (r: DatagramOutcome)
        requires
            old(self).wf(),
        ensures
            final(self).wf(),
            match parse_recv(bytes@) {
                None => r is BadDecode && *final(self) == *old(self),
                Some(p) => match p {
                    ParsedRecv::Pong(f) => final(self).inner == old(self).inner && final(
                    self).hash_ring == old(self).hash_ring && final(self).server_frame == old(
                    self).server_frame && (r matches DatagramOutcome::PongHandled(d)
                        && recv_relates(old(self).latency, final(self).latency, f, now_ms, d)),
                    ParsedRecv::StateHash(f, h) => final(self).inner == old(self).inner && final(
                    self).latency == old(self).latency && final(self).server_frame == (if old(
                    self).server_frame >= f {
                        old(self).server_frame
                    } else {
                        f
                    }) && ({
                        let fi = find_ring_frame_from(old(self).hash_ring.entries@, f, 0);
                        if fi == -1 {
                            r == DatagramOutcome::HashMissing(f) && final(self).hash_ring == old(
                            self).hash_ring
                        } else if old(self).hash_ring.entries@[fi].1 != h {
                            r == DatagramOutcome::HashMismatch(f) && final(self).hash_ring
                                == old(self).hash_ring
                        } else {
                            r == DatagramOutcome::HashMatched(f) && final(
                            self).hash_ring.entries@ == old(self).hash_ring.entries@.update(fi,
                                old(self).hash_ring.entries@.last()).drop_last()
                        }
                    }),
                    ParsedRecv::InputState(ie) => r is InputQueued && final(self).latency == old(
                    self).latency && final(self).hash_ring == old(self).hash_ring && final(
                    self).server_frame == old(self).server_frame && final(
                    self).inner.simulation == old(self).inner.simulation && final(
                    self).inner.frame_index == old(self).inner.frame_index && final(
                    self).inner.input_buffer.entries@ == old(
                    self).inner.input_buffer.entries@.insert(insert_pos(old(
                    self).inner.input_buffer.entries@, ie.frame_index), ie),
                    ParsedRecv::FullState(b, n, f, q) => r is FullStateIgnored && *final(self)
                        == *old(self),
                },
            },
    {
        match decode_recv(bytes) {
            None => DatagramOutcome::BadDecode,
            Some(m) => match m {
                Recv::Pong(f) => {
                    let d = self.latency.recv(f, now_ms);
                    DatagramOutcome::PongHandled(d)
                },
                Recv::StateHash(ih) => {
                    let f = ih.frame_index;
                    let h = ih.state;
                    if self.server_frame < f {
                        self.server_frame = f;
                    }
                    match self.hash_ring.lookup_frame(f) {
                        None => DatagramOutcome::HashMissing(f),
                        Some(local) => {
                            if local != h {
                                DatagramOutcome::HashMismatch(f)
                            } else {
                                self.hash_ring.remove_frame(f);
                                DatagramOutcome::HashMatched(f)
                            }
                        },
                    }
                },
                Recv::InputState(ie) => {
                    self.inner.input_buffer.push(ie);
                    DatagramOutcome::InputQueued
                },
                Recv::FullState(_st) => DatagramOutcome::FullStateIgnored,
            },
        }
    }

    /// Encode this frame's ping and record it as outstanding.
    pub fn send_ping(&mut self, now_ms: u64) -> (r: Vec<u8>)
        requires
            old(self).wf(),
        ensures
            final(self).wf(),
            r@ == send_bytes(Send::Ping(old(self).inner.frame_index)),
            parse_send(r@) == Some(Send::Ping(old(self).inner.frame_index)),
            final(self).inner == old(self).inner,
            final(self).hash_ring == old(self).hash_ring,
            final(self).server_frame == old(self).server_frame,
            final(self).latency.buffer@ == old(self).latency.buffer@.push((old(
            self).inner.frame_index, now_ms)),
            final(self).latency.timings@ == old(self).latency.timings@,
            final(self).latency.timeout_ms == old(self).latency.timeout_ms,
            final(self).latency.lost_packet_count == old(self).latency.lost_packet_count,
            final(self).latency.recvd_packet_count == old(self).latency.recvd_packet_count,
    {
        let frame = self.inner.frame_index;
        self.latency.send(frame, now_ms);
        proof {
            lemma_send_round_trip(Send::Ping(frame));
        }
        encode_send(&Send::Ping(frame))
    }

    /// The frame the pacing formula allows the client to reach.
    pub fn target_frame(&self) -> (r: FrameIndex)
        requires
            self.wf(),
        ensures
            r as int == spec_target(self.server_frame, spec_average_ms(self.latency)),
    {
        let avg = self.latency.average_latency_ms();
        proof {
            let ts = self.latency.timings@;
            let n = ts.len() as int;
            if n > 0 {
                lemma_timing_sum_bound(ts, n, self.latency.timeout_ms);
                vstd::arithmetic::div_mod::lemma_div_is_ordered(timing_sum(ts, n), n
                    * (self.latency.timeout_ms as int), n);
                vstd::arithmetic::div_mod::lemma_div_multiples_vanish(
                    self.latency.timeout_ms as int, n);
            }
        }
        let add64 = avg / 60;
        let add = (add64 as u32);
        if self.server_frame <= FrameIndex::MAX - add {
            self.server_frame + add
        } else {
            FrameIndex::MAX
        }
    }

    /// Record this frame's checksum and step, unless the client has drifted
    /// ahead of what the server has acknowledged.
    pub fn step_frame(&mut self) -> (r: StepOutcome)
        requires
            old(self).wf(),
            old(self).inner.can_step(),
        ensures
            final(self).wf(),
            final(self).latency == old(self).latency,
            final(self).server_frame == old(self).server_frame,
            ({
                let target = spec_target(old(self).server_frame, spec_average_ms(old(
                self).latency));
                if old(self).inner.frame_index > target {
                    r is Skipped && *final(self) == *old(self)
                } else {
                    let h = spec_state_hash(old(self).inner.simulation.bodies@, old(
                    self).inner.frame_index);
                    let d = spec_drain(old(self).inner.simulation.bodies@, old(
                    self).inner.simulation.next_id as int, old(self).inner.input_buffer.entries@,
                        old(self).inner.frame_index);
                    (r matches StepOutcome::Stepped(stale) && stale as int == d.3) && final(
                    self).hash_ring.entries@ == (if old(self).hash_ring.entries@.len()
                        < crate::hash_ring::HASH_RING_ENTRIES {
                        old(self).hash_ring.entries@.push((old(self).inner.frame_index, h))
                    } else {
                        old(self).hash_ring.entries@.push((old(self).inner.frame_index,
                            h)).drop_first()
                    }) && final(self).inner.simulation.bodies@ == spec_tick(d.0) && final(
                    self).inner.simulation.next_id as int == d.1 && final(
                    self).inner.input_buffer.entries@ == d.2 && final(self).inner.frame_index
                        == old(self).inner.frame_index + 1
                }
            }),
    {
        let target = self.target_frame();
        if self.inner.frame_index > target {
            return StepOutcome::Skipped;
        }
        let h = self.inner.hash();
        self.hash_ring.insert(self.inner.frame_index, h);
        let stale = self.inner.step();
        StepOutcome::Stepped(stale)
    }

    /// Stamp a local input event `INPUT_BUFFER_FRAMES` ahead, queue it
    /// locally, and encode it for the server.
    pub fn local_input(&mut self, event: AddBodyEvent) -> (r: Vec<u8>)
        requires
            old(self).wf(),
            old(self).inner.frame_index + INPUT_BUFFER_FRAMES <= FrameIndex::MAX,
        ensures
            final(self).wf(),
            ({
                let ie = IndexedState {
                    frame_index: (old(self).inner.frame_index + INPUT_BUFFER_FRAMES)
                        as FrameIndex,
                    state: event,
                };
                r@ == send_bytes(Send::InputState(ie)) && parse_send(r@) == Some(
                Send::InputState(ie)) && final(self).inner.input_buffer.entries@ == old(
                self).inner.input_buffer.entries@.insert(insert_pos(old(
                self).inner.input_buffer.entries@, ie.frame_index), ie)
            }),
            final(self).inner.simulation == old(self).inner.simulation,
            final(self).inner.frame_index == old(self).inner.frame_index,
            final(self).hash_ring == old(self).hash_ring,
            final(self).latency == old(self).latency,
            final(self).server_frame == old(self).server_frame,
    {
        let ie = IndexedState {
            frame_index: self.inner.frame_index + INPUT_BUFFER_FRAMES,
            state: event,
        };
        self.inner.input_buffer.push(ie);
        proof {
            lemma_send_round_trip(Send::InputState(ie));
        }
        encode_send(&Send::InputState(ie))
    }

    pub fn current_frame(&self) -> (r: FrameIndex)
        ensures
            r == self.inner.frame_index,
    {
        self.inner.frame_index
    }
}

/// Every timing is below the timeout, so the sum of `j` of them is below
/// `j` times the timeout.
proof fn lemma_timing_sum_bound(ts: Seq<u64>, j: int, timeout: u64)
    requires
        0 <= j <= ts.len(),
        forall|i: int| 0 <= i < ts.len() ==> ts[i] < timeout,
    ensures
        0 <= timing_sum(ts, j) <= j * (timeout as int),
    decreases j,
{
    if j > 0 {
        lemma_timing_sum_bound(ts, j - 1, timeout);
        assert((j - 1) * (timeout as int) + timeout as int == j * (timeout as int))
            by (nonlinear_arith);
    }
}

} // verus!
